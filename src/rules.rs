//! Match rules, their validation into a [`PatternSet`], and the events a
//! line raises against them.
use vstd::prelude::*;
use crate::error::ConfigProblem;
use crate::expression::{
    lookup, regex_accepts, regex_captures, regex_group_names, text_of, Expression,
};

verus! {

/// The texts of a list of strings.
pub open spec fn texts(v: Seq<String>) -> Seq<Seq<char>> {
    v.map_values(|s: String| s@)
}

/// The mark in a template that stands for the label.
pub open spec fn placeholder() -> Seq<char> {
    seq!['{', 'l', 'a', 'b', 'e', 'l', '}']
}

/// True when the placeholder starts at position `i` of `t`.
pub open spec fn placeholder_at(t: Seq<char>, i: int) -> bool {
    0 <= i && i + 7 <= t.len() && t.subrange(i, i + 7) == placeholder()
}

/// True when `t` holds the placeholder somewhere.
pub open spec fn has_placeholder(t: Seq<char>) -> bool {
    exists|i: int| placeholder_at(t, i)
}

/// Template `t` with each placeholder, read from the left, replaced by
/// `label`.
pub open spec fn instantiate(t: Seq<char>, label: Seq<char>) -> Seq<char>
    decreases t.len(),
{
    if t.len() == 0 {
        seq![]
    } else if placeholder_at(t, 0) {
        label + instantiate(t.skip(7), label)
    } else {
        seq![t[0]] + instantiate(t.skip(1), label)
    }
}

/// Fills `template` with `label`; `None` when the template has no
/// placeholder, since its lines would then not name the label.
pub fn fill_template(template: &str, label: &str) -> (r: Option<String>)
    ensures
        r is Some <==> has_placeholder(template@),
        r is Some ==> r->Some_0@ == instantiate(template@, label@),
{
    let ghost t = template@;
    let n = template.unicode_len();
    let mark = String::from_str("{label}");
    proof {
        reveal_strlit("{label}");
        assert(mark@ =~= placeholder());
        assert(t.skip(0) =~= t);
    }
    let mut out = String::new();
    let mut found = false;
    let mut i: usize = 0;
    while i < n
        invariant
            n == t.len(),
            t == template@,
            mark@ == placeholder(),
            i <= n,
            out@ + instantiate(t.skip(i as int), label@) == instantiate(t, label@),
            found <==> exists|j: int| 0 <= j < i && placeholder_at(t, j),
        decreases n - i,
    {
        let ghost rest = t.skip(i as int);
        let at_mark = if n - i >= 7 {
            String::from_str(template.substring_char(i, i + 7)) == mark
        } else {
            false
        };
        if at_mark {
            assert(rest.subrange(0, 7) =~= t.subrange(i as int, i + 7));
            assert(rest.skip(7) =~= t.skip(i + 7));
            assert(placeholder_at(t, i as int));
            let ghost before = out@;
            out.append(label);
            assert(out@ + instantiate(t.skip(i + 7), label@) =~= before + instantiate(rest, label@));
            found = true;
            i = i + 7;
        } else {
            assert(!placeholder_at(rest, 0)) by {
                if n - i >= 7 {
                    assert(rest.subrange(0, 7) =~= t.subrange(i as int, i + 7));
                }
            }
            assert(!placeholder_at(t, i as int)) by {
                if placeholder_at(t, i as int) {
                    assert(rest.subrange(0, 7) =~= t.subrange(i as int, i + 7));
                }
            }
            assert(rest.skip(1) =~= t.skip(i + 1));
            let ghost before = out@;
            let piece = template.substring_char(i, i + 1);
            assert(piece@ =~= seq![rest[0]]);
            out.append(piece);
            assert(out@ + instantiate(t.skip(i + 1), label@) =~= before + instantiate(rest, label@));
            i = i + 1;
        }
    }
    assert(t.skip(n as int) =~= Seq::<char>::empty());
    assert(out@ =~= instantiate(t, label@));
    if found {
        Some(out)
    } else {
        None
    }
}

/// A rule as configured.
pub enum Rule {
    /// Fires on a line equal to `template` filled with `label`.
    Literal { template: String, label: String },
    /// Fires on a line in which `expression` matches with every group of
    /// `fields` taking part; reports what each of them captured.
    Pattern { expression: String, fields: Vec<String> },
}

/// A model of [`Rule`].
pub enum RuleView {
    Literal { template: Seq<char>, label: Seq<char> },
    Pattern { expression: Seq<char>, fields: Seq<Seq<char>> },
}

impl View for Rule {
    type V = RuleView;

    open spec fn view(&self) -> RuleView {
        match self {
            Rule::Literal { template, label } => RuleView::Literal {
                template: template@,
                label: label@,
            },
            Rule::Pattern { expression, fields } => RuleView::Pattern {
                expression: expression@,
                fields: texts(fields@),
            },
        }
    }
}

/// A rule ready to be tried on lines.
pub enum MatcherView {
    /// Fires on a line equal to `text`, and reports `label`.
    Literal { label: Seq<char>, text: Seq<char> },
    /// Fires where `expression` captures every one of `fields`.
    Pattern { expression: Seq<char>, fields: Seq<Seq<char>> },
}

/// True when `pattern` has a capture group named `field`.
pub open spec fn names_group(pattern: Seq<char>, field: Seq<char>) -> bool {
    regex_group_names(pattern).contains(Some(field))
}

/// True when `r` can be used: a template holds the placeholder; an
/// expression compiles and names every field.
pub open spec fn rule_valid(r: RuleView) -> bool {
    match r {
        RuleView::Literal { template, .. } => has_placeholder(template),
        RuleView::Pattern { expression, fields } => regex_accepts(expression) && names_all(
            expression,
            fields,
        ),
    }
}

/// True when `pattern` has a capture group named after each of `fields`.
pub open spec fn names_all(pattern: Seq<char>, fields: Seq<Seq<char>>) -> bool {
    forall|k: int| 0 <= k < fields.len() ==> names_group(pattern, #[trigger] fields[k])
}

/// The matcher that a valid rule becomes.
pub open spec fn compiled(r: RuleView) -> MatcherView {
    match r {
        RuleView::Literal { template, label } => MatcherView::Literal {
            label,
            text: instantiate(template, label),
        },
        RuleView::Pattern { expression, fields } => MatcherView::Pattern { expression, fields },
    }
}

/// True when `p` reports what is wrong with rule `r`, the rule at position
/// `j`: a missing placeholder, an expression that does not compile, or the
/// first field that the expression does not name.
pub open spec fn refused_as(r: RuleView, j: int, p: ConfigProblem) -> bool {
    match r {
        RuleView::Literal { .. } => p matches ConfigProblem::MissingPlaceholder { rule } && rule == j,
        RuleView::Pattern { expression, fields } => if !regex_accepts(expression) {
            p matches ConfigProblem::InvalidExpression { rule, .. } && rule == j
        } else {
            p matches ConfigProblem::MissingGroup { rule, field } && rule == j && exists|k: int|
                0 <= k < fields.len() && fields[k] == field@ && !names_group(expression, fields[k])
                    && forall|m: int| 0 <= m < k ==> names_group(expression, #[trigger] fields[m])
        },
    }
}

/// The models of a list of rules.
pub open spec fn rule_views(v: Seq<Rule>) -> Seq<RuleView> {
    v.map_values(|r: Rule| r@)
}

/// True when every rule of `rs` can be used.
pub open spec fn rules_valid(rs: Seq<RuleView>) -> bool {
    forall|j: int| 0 <= j < rs.len() ==> rule_valid(#[trigger] rs[j])
}

/// The matchers that the rules `rs` become, in order.
pub open spec fn compiled_all(rs: Seq<RuleView>) -> Seq<MatcherView> {
    rs.map_values(|r: RuleView| compiled(r))
}

/// True when `p` reports the first rule of `rs` that cannot be used.
pub open spec fn first_refusal(rs: Seq<RuleView>, p: ConfigProblem) -> bool {
    exists|j: int|
        0 <= j < rs.len() && (forall|k: int| 0 <= k < j ==> rule_valid(#[trigger] rs[k])) && !rule_valid(
            rs[j],
        ) && refused_as(rs[j], j, p)
}

enum Matcher {
    Literal { label: String, text: String },
    Pattern { expression: Expression, fields: Vec<String> },
}

impl View for Matcher {
    type V = MatcherView;

    closed spec fn view(&self) -> MatcherView {
        match self {
            Matcher::Literal { label, text } => MatcherView::Literal { label: label@, text: text@ },
            Matcher::Pattern { expression, fields } => MatcherView::Pattern {
                expression: expression@,
                fields: texts(fields@),
            },
        }
    }
}

/// The rules of a configuration, validated and ready to be tried on lines,
/// in their configured order.
pub struct PatternSet {
    matchers: Vec<Matcher>,
}

impl View for PatternSet {
    type V = Seq<MatcherView>;

    closed spec fn view(&self) -> Seq<MatcherView> {
        self.matchers@.map_values(|m: Matcher| m@)
    }
}

/// A copy of a list of strings.
fn copy_texts(v: &Vec<String>) -> (r: Vec<String>)
    ensures
        texts(r@) == texts(v@),
{
    let mut r: Vec<String> = Vec::new();
    for i in 0..v.len()
        invariant
            r@.len() == i,
            forall|k: int| 0 <= k < i ==> r@[k]@ == v@[k]@,
    {
        r.push(v[i].clone());
    }
    assert(texts(r@) =~= texts(v@));
    r
}

/// Whether `names` holds `Some(field)`.
fn has_group(names: &Vec<Option<String>>, field: &String) -> (r: bool)
    ensures
        r <==> exists|m: int| 0 <= m < names@.len() && text_of(#[trigger] names@[m]) == Some(field@),
{
    for m in 0..names.len()
        invariant
            forall|q: int| 0 <= q < m ==> text_of(#[trigger] names@[q]) != Some(field@),
    {
        match &names[m] {
            Some(name) => {
                if *name == *field {
                    return true;
                }
            },
            None => {},
        }
    }
    false
}

impl PatternSet {
    /// Validates `rules` in order and compiles them; the first rule that
    /// cannot be used is reported.
    #[verifier::loop_isolation(false)]
    pub fn build(rules: &Vec<Rule>) -> (r: Result<PatternSet, ConfigProblem>)
        ensures
            r is Ok <==> rules_valid(rule_views(rules@)),
            r is Ok ==> r->Ok_0@ == compiled_all(rule_views(rules@)),
            r is Err ==> first_refusal(rule_views(rules@), r->Err_0),
    {
        let mut matchers: Vec<Matcher> = Vec::new();
        for j in 0..rules.len()
            invariant
                matchers@.len() == j,
                forall|k: int| 0 <= k < j ==> rule_valid(#[trigger] rule_views(rules@)[k]),
                forall|k: int| 0 <= k < j ==> (#[trigger] matchers@[k])@ == compiled(rule_views(rules@)[k]),
        {
            assert(rule_views(rules@)[j as int] == rules@[j as int]@);
            match &rules[j] {
                Rule::Literal { template, label } => {
                    match fill_template(template.as_str(), label.as_str()) {
                        Some(text) => {
                            matchers.push(Matcher::Literal { label: label.clone(), text });
                        },
                        None => {
                            assert(!rule_valid(rule_views(rules@)[j as int]));
                            return Err(ConfigProblem::MissingPlaceholder { rule: j });
                        },
                    }
                },
                Rule::Pattern { expression, fields } => {
                    let compiled_expr = match Expression::compile(expression) {
                        Ok(e) => e,
                        Err(error) => {
                            assert(!rule_valid(rule_views(rules@)[j as int]));
                            return Err(ConfigProblem::InvalidExpression { rule: j, error });
                        },
                    };
                    let names = compiled_expr.group_names();
                    let ghost groups = regex_group_names(expression@);
                    for k in 0..fields.len()
                        invariant
                            compiled_expr@ == expression@,
                            names@.len() == groups.len(),
                            forall|q: int| 0 <= q < names@.len() ==> text_of(#[trigger] names@[q]) == groups[q],
                            forall|m: int| 0 <= m < k ==> names_group(expression@, #[trigger] texts(fields@)[m]),
                    {
                        let ghost field = fields@[k as int]@;
                        assert(texts(fields@)[k as int] == field);
                        if !has_group(&names, &fields[k]) {
                            assert(!names_group(expression@, field)) by {
                                if groups.contains(Some(field)) {
                                    let q = choose|q: int| 0 <= q < groups.len() && groups[q] == Some(field);
                                    assert(text_of(names@[q]) == Some(field));
                                    assert(false);
                                }
                            }
                            assert(!rule_valid(rule_views(rules@)[j as int]));
                            return Err(ConfigProblem::MissingGroup { rule: j, field: fields[k].clone() });
                        }
                        assert(names_group(expression@, texts(fields@)[k as int])) by {
                            let q = choose|q: int| 0 <= q < names@.len() && text_of(#[trigger] names@[q]) == Some(fields@[k as int]@);
                            assert(groups[q] == Some(fields@[k as int]@));
                        }
                    }
                    matchers.push(Matcher::Pattern { expression: compiled_expr, fields: copy_texts(fields) });
                },
            }
        }
        let set = PatternSet { matchers };
        assert(set@ =~= compiled_all(rule_views(rules@)));
        Ok(set)
    }
}

/// What a match reports.
pub enum MatchKind {
    /// A literal rule fired; its label.
    Literal { label: String },
    /// A pattern rule fired; each field with the text it captured, in the
    /// order of the rule's fields.
    Captured { fields: Vec<(String, String)> },
}

/// A line that satisfied a rule.
pub struct MatchEvent {
    /// The position of the rule in the configured order.
    pub rule: usize,
    /// The line, without its terminator.
    pub line: String,
    /// What the rule reports.
    pub kind: MatchKind,
}

/// A model of [`MatchKind`].
pub enum KindView {
    Literal(Seq<char>),
    Captured(Seq<(Seq<char>, Seq<char>)>),
}

/// A model of [`MatchEvent`].
pub struct MatchView {
    pub rule: int,
    pub line: Seq<char>,
    pub kind: KindView,
}

/// The texts of a list of pairs of strings.
pub open spec fn pair_texts(v: Seq<(String, String)>) -> Seq<(Seq<char>, Seq<char>)> {
    v.map_values(|p: (String, String)| (p.0@, p.1@))
}

impl View for MatchKind {
    type V = KindView;

    open spec fn view(&self) -> KindView {
        match self {
            MatchKind::Literal { label } => KindView::Literal(label@),
            MatchKind::Captured { fields } => KindView::Captured(pair_texts(fields@)),
        }
    }
}

impl View for MatchEvent {
    type V = MatchView;

    open spec fn view(&self) -> MatchView {
        MatchView { rule: self.rule as int, line: self.line@, kind: self.kind@ }
    }
}

/// The models of a list of events.
pub open spec fn event_views(v: Seq<MatchEvent>) -> Seq<MatchView> {
    v.map_values(|e: MatchEvent| e@)
}

/// True when `caps` holds a capture for each of `fields`.
pub open spec fn captures_all(caps: Map<Seq<char>, Seq<char>>, fields: Seq<Seq<char>>) -> bool {
    forall|k: int| 0 <= k < fields.len() ==> caps.dom().contains(#[trigger] fields[k])
}

/// Each of `fields` with what `caps` holds for it.
pub open spec fn field_values(caps: Map<Seq<char>, Seq<char>>, fields: Seq<Seq<char>>) -> Seq<
    (Seq<char>, Seq<char>),
> {
    fields.map_values(|f: Seq<char>| (f, caps[f]))
}

/// The event that matcher `m`, the rule at position `j`, raises on `line`,
/// if it fires: a literal rule on a line equal to its text; a pattern rule
/// where its expression matches and every one of its fields took part.
pub open spec fn fire(m: MatcherView, j: int, line: Seq<char>) -> Option<MatchView> {
    match m {
        MatcherView::Literal { label, text } => if line == text {
            Some(MatchView { rule: j, line, kind: KindView::Literal(label) })
        } else {
            None
        },
        MatcherView::Pattern { expression, fields } => match regex_captures(expression, line) {
            Some(caps) => if captures_all(caps, fields) {
                Some(
                    MatchView {
                        rule: j,
                        line,
                        kind: KindView::Captured(field_values(caps, fields)),
                    },
                )
            } else {
                None
            },
            None => None,
        },
    }
}

/// The events that the first `k` matchers of `ms` raise on `line`, in rule
/// order.
pub open spec fn events_upto(ms: Seq<MatcherView>, line: Seq<char>, k: int) -> Seq<MatchView>
    decreases k,
{
    if k <= 0 {
        seq![]
    } else {
        let before = events_upto(ms, line, k - 1);
        match fire(ms[k - 1], k - 1, line) {
            Some(e) => before.push(e),
            None => before,
        }
    }
}

/// The events that `line` raises against all of `ms`, in rule order.
pub open spec fn line_events(ms: Seq<MatcherView>, line: Seq<char>) -> Seq<MatchView> {
    events_upto(ms, line, ms.len() as int)
}

/// The events that `lines` raise against `ms`: line by line, in file order,
/// and within a line in rule order.
pub open spec fn lines_events(ms: Seq<MatcherView>, lines: Seq<Seq<char>>) -> Seq<MatchView>
    decreases lines.len(),
{
    if lines.len() == 0 {
        seq![]
    } else {
        lines_events(ms, lines.drop_last()) + line_events(ms, lines.last())
    }
}

impl PatternSet {
    /// The number of rules.
    pub fn len(&self) -> (r: usize)
        ensures
            r == self@.len(),
    {
        self.matchers.len()
    }

    /// Tries every rule, in order, on `line`; returns one event for each
    /// rule that fires.
    pub fn evaluate(&self, line: &String) -> (r: Vec<MatchEvent>)
        ensures
            event_views(r@) == line_events(self@, line@),
    {
        let mut out: Vec<MatchEvent> = Vec::new();
        let n = self.matchers.len();
        for j in 0..n
            invariant
                n == self@.len(),
                event_views(out@) == events_upto(self@, line@, j as int),
        {
            let ghost before = out@;
            let ghost m = self@[j as int];
            assert(self.matchers@[j as int]@ == m);
            match &self.matchers[j] {
                Matcher::Literal { label, text } => {
                    if *line == *text {
                        out.push(
                            MatchEvent {
                                rule: j,
                                line: line.clone(),
                                kind: MatchKind::Literal { label: label.clone() },
                            },
                        );
                        assert(event_views(out@) =~= event_views(before).push(
                            fire(m, j as int, line@)->Some_0,
                        ));
                    }
                },
                Matcher::Pattern { expression, fields } => {
                    match expression.captures(line.as_str(), fields) {
                        Some(values) => {
                            let ghost caps = regex_captures(expression@, line@)->Some_0;
                            match pair_up(fields, &values, Ghost(caps)) {
                                Some(pairs) => {
                                    out.push(
                                        MatchEvent {
                                            rule: j,
                                            line: line.clone(),
                                            kind: MatchKind::Captured { fields: pairs },
                                        },
                                    );
                                    assert(event_views(out@) =~= event_views(before).push(
                                        fire(m, j as int, line@)->Some_0,
                                    ));
                                },
                                None => {},
                            }
                        },
                        None => {},
                    }
                },
            }
        }
        out
    }

    /// Evaluates each of `lines` in order; returns all their events, line
    /// by line.
    pub fn evaluate_lines(&self, lines: &Vec<String>) -> (r: Vec<MatchEvent>)
        ensures
            event_views(r@) == lines_events(self@, texts(lines@)),
    {
        let mut out: Vec<MatchEvent> = Vec::new();
        let n = lines.len();
        for i in 0..n
            invariant
                n == lines@.len(),
                event_views(out@) == lines_events(self@, texts(lines@).subrange(0, i as int)),
        {
            let ghost before = out@;
            let mut found = self.evaluate(&lines[i]);
            let ghost added = found@;
            out.append(&mut found);
            assert(texts(lines@).subrange(0, i + 1).drop_last() =~= texts(lines@).subrange(0, i as int));
            assert(event_views(out@) =~= event_views(before) + event_views(added));
        }
        assert(texts(lines@).subrange(0, n as int) =~= texts(lines@));
        out
    }
}

/// Pairs each of `fields` with its captured text in `values`, where every
/// one of them has one.
fn pair_up(fields: &Vec<String>, values: &Vec<Option<String>>, caps: Ghost<Map<Seq<char>, Seq<char>>>) -> (r: Option<Vec<(String, String)>>)
    requires
        values@.len() == fields@.len(),
        forall|i: int| 0 <= i < fields@.len() ==> text_of(#[trigger] values@[i]) == lookup(caps@, fields@[i]@),
    ensures
        r is Some <==> captures_all(caps@, texts(fields@)),
        r is Some ==> pair_texts(r->Some_0@) == field_values(caps@, texts(fields@)),
{
    let mut pairs: Vec<(String, String)> = Vec::new();
    let n = fields.len();
    for i in 0..n
        invariant
            n == fields@.len(),
            values@.len() == n,
            pairs@.len() == i,
            forall|q: int| 0 <= q < n ==> text_of(#[trigger] values@[q]) == lookup(caps@, fields@[q]@),
            pair_texts(pairs@) == field_values(caps@, texts(fields@).subrange(0, i as int)),
            forall|q: int| 0 <= q < i ==> caps@.dom().contains(#[trigger] texts(fields@)[q]),
    {
        let ghost before = pairs@;
        match &values[i] {
            Some(v) => {
                let ghost f = fields@[i as int]@;
                assert(text_of(values@[i as int]) == lookup(caps@, f));
                assert(caps@.dom().contains(f) && v@ == caps@[f]);
                assert(texts(fields@)[i as int] == f);
                let name = fields[i].clone();
                let value = v.clone();
                pairs.push((name, value));
                assert(pairs@[i as int].0@ == f && pairs@[i as int].1@ == caps@[f]);
                let ghost done = texts(fields@).subrange(0, i + 1);
                assert(done.drop_last() =~= texts(fields@).subrange(0, i as int));
                assert forall|k: int| 0 <= k < i implies #[trigger] pair_texts(pairs@)[k]
                    == field_values(caps@, done)[k] by {
                    assert(pairs@[k] == before[k]);
                    assert(pair_texts(before)[k] == field_values(caps@, done.drop_last())[k]);
                }
                assert(pair_texts(pairs@) =~= field_values(caps@, done));
            },
            None => {
                assert(!caps@.dom().contains(texts(fields@)[i as int]));
                return None;
            },
        }
    }
    assert(texts(fields@).subrange(0, n as int) =~= texts(fields@));
    Some(pairs)
}

/// The number of events in `events` that rule `rule` raised on `line`.
pub open spec fn occurrences(events: Seq<MatchView>, line: Seq<char>, rule: int) -> nat
    decreases events.len(),
{
    if events.len() == 0 {
        0
    } else {
        occurrences(events.drop_last(), line, rule) + if events.last().line == line
            && events.last().rule == rule {
            1nat
        } else {
            0nat
        }
    }
}

proof fn lemma_occurrences_concat(a: Seq<MatchView>, b: Seq<MatchView>, line: Seq<char>, rule: int)
    ensures
        occurrences(a + b, line, rule) == occurrences(a, line, rule) + occurrences(b, line, rule),
    decreases b.len(),
{
    if b.len() == 0 {
        assert(a + b =~= a);
    } else {
        assert((a + b).drop_last() =~= a + b.drop_last());
        lemma_occurrences_concat(a, b.drop_last(), line, rule);
    }
}

proof fn lemma_events_upto_occurrences(
    ms: Seq<MatcherView>,
    line: Seq<char>,
    k: int,
    other: Seq<char>,
    rule: int,
)
    requires
        0 <= rule,
        k <= ms.len(),
    ensures
        occurrences(events_upto(ms, line, k), other, rule) == if other == line && rule < k && fire(
            ms[rule],
            rule,
            line,
        ) is Some {
            1nat
        } else {
            0nat
        },
    decreases k,
{
    if k > 0 {
        lemma_events_upto_occurrences(ms, line, k - 1, other, rule);
        let before = events_upto(ms, line, k - 1);
        match fire(ms[k - 1], k - 1, line) {
            Some(e) => {
                assert(before.push(e).drop_last() =~= before);
                assert(e.line == line && e.rule == k - 1);
            },
            None => {},
        }
    }
}

/// Each rule raises exactly one event on each line of a list of distinct
/// lines that satisfies it, and none on any other line: for every line and
/// rule, the events of `lines` hold one raised by that rule on that line if
/// the line is among `lines` and the rule fires on it, and none otherwise.
pub proof fn lemma_one_event_per_match(
    ms: Seq<MatcherView>,
    lines: Seq<Seq<char>>,
    line: Seq<char>,
    rule: int,
)
    requires
        0 <= rule < ms.len(),
        lines.no_duplicates(),
    ensures
        occurrences(lines_events(ms, lines), line, rule) == if lines.contains(line) && fire(
            ms[rule],
            rule,
            line,
        ) is Some {
            1nat
        } else {
            0nat
        },
    decreases lines.len(),
{
    if lines.len() > 0 {
        let rest = lines.drop_last();
        let last = lines.last();
        assert(rest.no_duplicates());
        lemma_one_event_per_match(ms, rest, line, rule);
        lemma_occurrences_concat(lines_events(ms, rest), line_events(ms, last), line, rule);
        lemma_events_upto_occurrences(ms, last, ms.len() as int, line, rule);
        assert(lines.contains(line) <==> rest.contains(line) || last == line) by {
            if lines.contains(line) {
                let i = choose|i: int| 0 <= i < lines.len() && lines[i] == line;
                if i < lines.len() - 1 {
                    assert(rest[i] == line);
                }
            }
            if rest.contains(line) {
                let i = choose|i: int| 0 <= i < rest.len() && rest[i] == line;
                assert(lines[i] == line);
            }
            assert(lines[lines.len() - 1] == last);
        }
        if last == line && rest.contains(line) {
            let i = choose|i: int| 0 <= i < rest.len() && rest[i] == line;
            assert(lines[i] == lines[lines.len() - 1]);
        }
    } else {
        assert(!lines.contains(line));
    }
}

} // verus!
