//! The alert that each match raises for the user.
use vstd::prelude::*;
use crate::rules::{pair_texts, KindView, MatchEvent, MatchKind};

verus! {

/// How pressing an alert is.
#[derive(Clone, Copy, Debug, PartialEq, Eq, Structural)]
pub enum Urgency {
    Normal,
    Critical,
}

/// How long an alert stays on screen, in milliseconds.
pub const ALERT_TIMEOUT_MS: u32 = 5000;

/// A notification to show: a title, a body with simple inline markup, its
/// urgency and how long it stays.
pub struct Alert {
    pub title: String,
    pub body: String,
    pub urgency: Urgency,
    pub timeout_ms: u32,
}

/// The line of an alert body that shows one captured field.
pub open spec fn field_line(field: (Seq<char>, Seq<char>)) -> Seq<char> {
    field.0 + ": <b>"@ + field.1 + "</b>"@
}

/// One line for each field, separated by line breaks.
pub open spec fn fields_body(fields: Seq<(Seq<char>, Seq<char>)>) -> Seq<char>
    decreases fields.len(),
{
    if fields.len() == 0 {
        seq![]
    } else if fields.len() == 1 {
        field_line(fields[0])
    } else {
        fields_body(fields.drop_last()) + "\n"@ + field_line(fields.last())
    }
}

/// The title of the alert for a match of kind `k`.
pub open spec fn alert_title(k: KindView) -> Seq<char> {
    match k {
        KindView::Literal(_) => "brickatlas map"@,
        KindView::Captured(_) => "brickatlas buyer"@,
    }
}

/// The body of the alert for a match of kind `k`: a warning for an area
/// entered, the captured fields for a trade offer.
pub open spec fn alert_body(k: KindView) -> Seq<char> {
    match k {
        KindView::Literal(_) => "Do <u><b>NOT</b></u> complete map!"@,
        KindView::Captured(fields) => fields_body(fields),
    }
}

/// The urgency of the alert for a match of kind `k`: entering an area is
/// critical, a trade offer is not.
pub open spec fn alert_urgency(k: KindView) -> Urgency {
    match k {
        KindView::Literal(_) => Urgency::Critical,
        KindView::Captured(_) => Urgency::Normal,
    }
}

/// The body that lists `fields`, one per line.
fn fields_text(fields: &Vec<(String, String)>) -> (r: String)
    ensures
        r@ == fields_body(pair_texts(fields@)),
{
    let mut out = String::new();
    let n = fields.len();
    for i in 0..n
        invariant
            n == fields@.len(),
            out@ == fields_body(pair_texts(fields@).subrange(0, i as int)),
    {
        let ghost done = pair_texts(fields@).subrange(0, i + 1);
        assert(done.drop_last() =~= pair_texts(fields@).subrange(0, i as int));
        if i > 0 {
            out.append("\n");
        }
        out.append(fields[i].0.as_str());
        out.append(": <b>");
        out.append(fields[i].1.as_str());
        out.append("</b>");
        assert(out@ =~= fields_body(done));
    }
    assert(pair_texts(fields@).subrange(0, n as int) =~= pair_texts(fields@));
    out
}

impl MatchEvent {
    /// The alert that this match raises.
    pub fn alert(&self) -> (r: Alert)
        ensures
            r.title@ == alert_title(self@.kind),
            r.body@ == alert_body(self@.kind),
            r.urgency == alert_urgency(self@.kind),
            r.timeout_ms == ALERT_TIMEOUT_MS,
    {
        match &self.kind {
            MatchKind::Literal { .. } => Alert {
                title: String::from_str("brickatlas map"),
                body: String::from_str("Do <u><b>NOT</b></u> complete map!"),
                urgency: Urgency::Critical,
                timeout_ms: ALERT_TIMEOUT_MS,
            },
            MatchKind::Captured { fields } => Alert {
                title: String::from_str("brickatlas buyer"),
                body: fields_text(fields),
                urgency: Urgency::Normal,
                timeout_ms: ALERT_TIMEOUT_MS,
            },
        }
    }
}

} // verus!
