//! What to watch and what to look for in it.
use vstd::prelude::*;
use crate::rules::{rule_views, texts, Rule, RuleView};

verus! {

/// The settings of a run: the file to watch, the names of the areas whose
/// entry raises an alert, the template of the line that reports an entry,
/// and the expression that recognises a trade offer (none when empty).
pub struct Config {
    pub logfile: String,
    pub maps: Vec<String>,
    pub map_template: String,
    pub buy_regex: String,
}

/// A model of [`Config`].
pub struct ConfigView {
    pub logfile: Seq<char>,
    pub maps: Seq<Seq<char>>,
    pub map_template: Seq<char>,
    pub buy_regex: Seq<char>,
}

impl View for Config {
    type V = ConfigView;

    open spec fn view(&self) -> ConfigView {
        ConfigView {
            logfile: self.logfile@,
            maps: texts(self.maps@),
            map_template: self.map_template@,
            buy_regex: self.buy_regex@,
        }
    }
}

/// The template used where none is configured.
pub open spec fn default_template() -> Seq<char> {
    "You have entered {label}"@
}

/// The settings used where nothing is configured.
pub open spec fn default_config() -> ConfigView {
    ConfigView {
        logfile: seq![],
        maps: seq![],
        map_template: default_template(),
        buy_regex: seq![],
    }
}

/// The settings `base` with the watched file replaced by `logfile`, where
/// one is given, and `maps` added after its own.
pub open spec fn merged(base: ConfigView, logfile: Option<Seq<char>>, maps: Seq<Seq<char>>) -> ConfigView {
    ConfigView {
        logfile: match logfile {
            Some(l) => l,
            None => base.logfile,
        },
        maps: base.maps + maps,
        ..base
    }
}

/// The fields that a trade offer reports.
pub open spec fn trade_fields() -> Seq<Seq<char>> {
    seq!["buyer"@, "object"@, "price"@, "league"@, "location"@]
}

/// A literal rule for each map of `c`, in order.
pub open spec fn map_rules(c: ConfigView) -> Seq<RuleView> {
    c.maps.map_values(|m: Seq<char>| RuleView::Literal { template: c.map_template, label: m })
}

/// The trade rule of `c`, where it gives an expression.
pub open spec fn trade_rules(c: ConfigView) -> Seq<RuleView> {
    if c.buy_regex.len() == 0 {
        seq![]
    } else {
        seq![RuleView::Pattern { expression: c.buy_regex, fields: trade_fields() }]
    }
}

/// The rules that `c` configures: a literal rule for each map, in order,
/// then the trade rule where an expression is given.
pub open spec fn config_rules(c: ConfigView) -> Seq<RuleView> {
    map_rules(c) + trade_rules(c)
}

impl Default for Config {
    fn default() -> (r: Config)
        ensures
            r@ == default_config(),
    {
        let r = Config {
            logfile: String::new(),
            maps: Vec::new(),
            map_template: String::from_str("You have entered {label}"),
            buy_regex: String::new(),
        };
        assert(r@.maps =~= Seq::<Seq<char>>::empty());
        r
    }
}

/// The names of the fields that a trade offer reports.
fn trade_field_names() -> (r: Vec<String>)
    ensures
        texts(r@) == trade_fields(),
{
    let r = vec![
        String::from_str("buyer"),
        String::from_str("object"),
        String::from_str("price"),
        String::from_str("league"),
        String::from_str("location"),
    ];
    assert(texts(r@) =~= trade_fields());
    r
}

impl Config {
    /// Settings from the command line: those of the configuration file where
    /// one was read, else the defaults; then the watched file given on the
    /// command line, if any, and its maps added after the others.
    pub fn new_from_args(file: Option<Config>, logfile: Option<String>, maps: Vec<String>) -> (r: Config)
        ensures
            r@ == merged(
                match file {
                    Some(c) => c@,
                    None => default_config(),
                },
                match logfile {
                    Some(l) => Some(l@),
                    None => None,
                },
                texts(maps@),
            ),
    {
        let mut config = match file {
            Some(c) => c,
            None => Config::default(),
        };
        if let Some(l) = logfile {
            config.logfile = l;
        }
        let mut extra = maps;
        let ghost before = config.maps@;
        let ghost added = extra@;
        config.maps.append(&mut extra);
        assert(texts(config.maps@) =~= texts(before) + texts(added));
        config
    }

    /// The rules these settings configure, in order.
    pub fn rules(&self) -> (r: Vec<Rule>)
        ensures
            rule_views(r@) == config_rules(self@),
    {
        let mut r: Vec<Rule> = Vec::new();
        let n = self.maps.len();
        for i in 0..n
            invariant
                n == self.maps@.len(),
                r@.len() == i,
                rule_views(r@) == map_rules(self@).subrange(0, i as int),
        {
            let ghost before = r@;
            let rule = Rule::Literal { template: self.map_template.clone(), label: self.maps[i].clone() };
            assert(rule@ == map_rules(self@)[i as int]);
            r.push(rule);
            assert forall|k: int| 0 <= k < i implies #[trigger] rule_views(r@)[k] == map_rules(
                self@,
            )[k] by {
                assert(r@[k] == before[k]);
                assert(rule_views(before)[k] == map_rules(self@).subrange(0, i as int)[k]);
            }
            assert(rule_views(r@) =~= map_rules(self@).subrange(0, i + 1));
        }
        assert(map_rules(self@).subrange(0, n as int) =~= map_rules(self@));
        if !self.buy_regex.as_str().is_empty() {
            let rule = Rule::Pattern { expression: self.buy_regex.clone(), fields: trade_field_names() };
            r.push(rule);
            assert(rule_views(r@) =~= config_rules(self@));
        } else {
            assert(rule_views(r@) =~= config_rules(self@));
        }
        r
    }
}

} // verus!
