//! The decisions of the watch loop: what to do on each change notification,
//! and which matches the bytes read from the file raise. Waiting for
//! notifications, reading the file and showing alerts are left to the
//! caller, which hands the outcomes back.
use vstd::prelude::*;
use crate::config::{config_rules, Config};
use crate::error::{AtlasError, ConfigProblem};
use crate::lines::{byte_lines, lemma_written_lines_come_back, terminated_lines, unterminated};
use crate::rules::{
    compiled_all, event_views, fire, first_refusal, lemma_one_event_per_match, lines_events,
    occurrences, rules_valid, texts, MatchEvent, MatchView, MatcherView, PatternSet,
};
use crate::tail::{
    after_read, before_read, lemma_empty_wakeup, lines_read, opened_at, well_formed, TailState,
    TailView,
};

verus! {

/// The text that `String::from_utf8_lossy` makes of `bytes`.
pub uninterp spec fn lossy_text(bytes: Seq<u8>) -> Seq<char>;

/// Relies on `String::from_utf8_lossy`: decodes `bytes` as UTF-8, putting a
/// replacement character where they are not valid.
#[verifier::external_body]
fn decode_lossy(bytes: &[u8]) -> (r: String)
    ensures
        r@ == lossy_text(bytes@),
{
    String::from_utf8_lossy(bytes).into_owned()
}

/// The byte that a line written with Windows line endings ends with.
pub const CARRIAGE_RETURN: u8 = 0x0d;

/// A line without the carriage return that may end it.
pub open spec fn without_cr(l: Seq<u8>) -> Seq<u8> {
    if l.len() > 0 && l.last() == CARRIAGE_RETURN {
        l.drop_last()
    } else {
        l
    }
}

/// The text of a complete line.
pub open spec fn line_text(l: Seq<u8>) -> Seq<char> {
    lossy_text(without_cr(l))
}

/// The texts of a list of complete lines.
pub open spec fn line_texts(ls: Seq<Seq<u8>>) -> Seq<Seq<char>> {
    ls.map_values(|l: Seq<u8>| line_text(l))
}

/// The text of a complete line: its bytes without a final carriage return,
/// decoded leniently.
pub fn decode_line(bytes: &[u8]) -> (r: String)
    ensures
        r@ == line_text(bytes@),
{
    let n = bytes.len();
    if n > 0 && bytes[n - 1] == CARRIAGE_RETURN {
        let kept = vstd::slice::slice_subrange(bytes, 0, n - 1);
        assert(kept@ =~= bytes@.drop_last());
        decode_lossy(kept)
    } else {
        decode_lossy(bytes)
    }
}

/// A change notification, as the caller observed it.
pub enum FsEvent {
    /// The file was written to and is now `len` bytes long.
    Modified { len: u64 },
    Created,
    Removed,
    Renamed,
    /// Any other notification.
    Other,
    /// The notification source reported an error.
    Failed(String),
    /// The notification source has closed.
    Closed,
}

/// What the caller has to do next.
#[derive(Clone, Copy, Debug, PartialEq, Eq, Structural)]
pub enum Action {
    /// Nothing; wait for the next notification.
    Ignore,
    /// Read the file from offset `from` to its end and hand the bytes to
    /// [`WatchLoop::on_data`].
    Read { from: u64 },
    /// Stop watching.
    Stop,
}

/// Whether the loop still watches.
#[derive(Clone, Copy, Debug, PartialEq, Eq, Structural)]
pub enum Phase {
    Watching,
    Terminated,
}

/// A model of [`WatchLoop`].
pub struct WatchView {
    pub phase: Phase,
    pub tail: TailView,
    pub rules: Seq<MatcherView>,
}

/// True when `r` and `w` are the outcome of notification `e` in state
/// `old`. A stopped loop stays stopped. While watching: a write prepares a
/// read at the offset the tail state gives; an error or the end of the
/// notifications stops the loop, reporting the error; anything else
/// changes nothing.
pub open spec fn stepped(old: WatchView, e: FsEvent, w: WatchView, r: Result<Action, AtlasError>) -> bool {
    if old.phase == Phase::Terminated {
        w == old && r == Ok::<Action, AtlasError>(Action::Stop)
    } else {
        match e {
            FsEvent::Modified { len } => {
                let tail = before_read(old.tail, len as nat);
                &&& w == WatchView { tail, ..old }
                &&& r == Ok::<Action, AtlasError>(Action::Read { from: tail.offset as u64 })
            },
            FsEvent::Failed(m) => {
                &&& w == WatchView { phase: Phase::Terminated, ..old }
                &&& r matches Err(AtlasError::FsNotifyError(x)) && x@ == m@
            },
            FsEvent::Closed => {
                &&& w == WatchView { phase: Phase::Terminated, ..old }
                &&& r == Ok::<Action, AtlasError>(Action::Stop)
            },
            _ => w == old && r == Ok::<Action, AtlasError>(Action::Ignore),
        }
    }
}

/// A wake-up on which the file has not grown reads nothing, raises no
/// match and leaves the state as it was.
pub proof fn lemma_quiet_wakeup(w: WatchView)
    requires
        well_formed(w.tail),
    ensures
        before_read(w.tail, w.tail.offset) == w.tail,
        lines_events(w.rules, line_texts(lines_read(w.tail, seq![]))) == Seq::<MatchView>::empty(),
        after_read(w.tail, seq![]) == w.tail,
{
    lemma_empty_wakeup(w.tail);
    assert(line_texts(lines_read(w.tail, seq![])) =~= Seq::<Seq<char>>::empty());
}

/// Lines written to the watched file once each, every one followed by a
/// terminator, raise exactly one event for each rule that a line satisfies
/// and none for the others. Given lines without terminators whose texts are
/// distinct, read when no line was pending: for every line and rule, the
/// events of the read hold one that the rule raised on the line if the line
/// was written and the rule fires on it, and none otherwise.
pub proof fn lemma_each_line_matched_once(
    w: WatchView,
    lines: Seq<Seq<u8>>,
    line: Seq<char>,
    rule: int,
)
    requires
        w.tail.pending.len() == 0,
        forall|i: int| 0 <= i < lines.len() ==> unterminated(#[trigger] lines[i]),
        line_texts(lines).no_duplicates(),
        0 <= rule < w.rules.len(),
    ensures
        occurrences(
            lines_events(w.rules, line_texts(lines_read(w.tail, terminated_lines(lines)))),
            line,
            rule,
        ) == if line_texts(lines).contains(line) && fire(w.rules[rule], rule, line) is Some {
            1nat
        } else {
            0nat
        },
{
    lemma_written_lines_come_back(lines);
    assert(w.tail.pending + terminated_lines(lines) =~= terminated_lines(lines));
    lemma_one_event_per_match(w.rules, line_texts(lines), line, rule);
}

/// The watch loop: the rules, where reading stands, and whether it still
/// watches.
pub struct WatchLoop {
    phase: Phase,
    tail: TailState,
    patterns: PatternSet,
}

impl View for WatchLoop {
    type V = WatchView;

    closed spec fn view(&self) -> WatchView {
        WatchView { phase: self.phase, tail: self.tail@, rules: self.patterns@ }
    }
}

impl WatchLoop {
    /// Starts watching with `config`, on a file that is `len` bytes long
    /// now: fails when the file does not exist or a rule cannot be used;
    /// else reads will start at the current end of the file.
    pub fn start(config: &Config, logfile_exists: bool, len: u64) -> (r: Result<WatchLoop, AtlasError>)
        ensures
            r is Ok <==> logfile_exists && rules_valid(config_rules(config@)),
            r is Ok ==> r->Ok_0@ == (WatchView {
                phase: Phase::Watching,
                tail: opened_at(len as nat),
                rules: compiled_all(config_rules(config@)),
            }),
            r is Ok ==> well_formed(r->Ok_0@.tail),
            !logfile_exists ==> (r matches Err(
                AtlasError::ConfigError(ConfigProblem::LogfileMissing(p)),
            ) && p@ == config@.logfile),
            logfile_exists && !rules_valid(config_rules(config@)) ==> (r matches Err(
                AtlasError::ConfigError(p),
            ) && first_refusal(config_rules(config@), p)),
    {
        if !logfile_exists {
            return Err(AtlasError::ConfigError(ConfigProblem::LogfileMissing(config.logfile.clone())));
        }
        let rules = config.rules();
        match PatternSet::build(&rules) {
            Ok(patterns) => Ok(WatchLoop { phase: Phase::Watching, tail: TailState::open(len), patterns }),
            Err(p) => Err(AtlasError::ConfigError(p)),
        }
    }

    /// Whether the loop still watches.
    pub fn phase(&self) -> (r: Phase)
        ensures
            r == self@.phase,
    {
        self.phase
    }

    /// The number of bytes of the file read so far.
    pub fn offset(&self) -> (r: u64)
        ensures
            r == self@.tail.offset,
    {
        self.tail.offset()
    }

    /// Decides what a change notification calls for.
    pub fn on_event(&mut self, event: FsEvent) -> (r: Result<Action, AtlasError>)
        requires
            well_formed(old(self)@.tail),
        ensures
            stepped(old(self)@, event, final(self)@, r),
            well_formed(final(self)@.tail),
    {
        if self.phase == Phase::Terminated {
            return Ok(Action::Stop);
        }
        match event {
            FsEvent::Modified { len } => {
                let from = self.tail.begin_read(len);
                Ok(Action::Read { from })
            },
            FsEvent::Failed(m) => {
                self.phase = Phase::Terminated;
                Err(AtlasError::FsNotifyError(m))
            },
            FsEvent::Closed => {
                self.phase = Phase::Terminated;
                Ok(Action::Stop)
            },
            _ => Ok(Action::Ignore),
        }
    }

    /// Takes the bytes read at the offset that the last read action gave and
    /// returns the matches of the lines they complete: line by line in file
    /// order, and within a line in rule order. A stopped loop takes nothing.
    pub fn on_data(&mut self, data: &[u8]) -> (r: Vec<MatchEvent>)
        requires
            well_formed(old(self)@.tail),
            old(self)@.tail.offset + data@.len() <= u64::MAX,
        ensures
            well_formed(final(self)@.tail),
            old(self)@.phase == Phase::Terminated ==> final(self)@ == old(self)@ && r@.len() == 0,
            old(self)@.phase == Phase::Watching ==> final(self)@ == (WatchView {
                tail: after_read(old(self)@.tail, data@),
                ..old(self)@
            }) && event_views(r@) == lines_events(
                old(self)@.rules,
                line_texts(lines_read(old(self)@.tail, data@)),
            ),
    {
        if self.phase == Phase::Terminated {
            return Vec::new();
        }
        let lines = self.tail.finish_read(data);
        let mut texts_read: Vec<String> = Vec::new();
        let n = lines.len();
        for i in 0..n
            invariant
                n == lines@.len(),
                texts_read@.len() == i,
                texts(texts_read@) == line_texts(byte_lines(lines@)).subrange(0, i as int),
        {
            let ghost before = texts_read@;
            let text = decode_line(lines[i].as_slice());
            texts_read.push(text);
            assert forall|k: int| 0 <= k < i implies #[trigger] texts(texts_read@)[k] == line_texts(
                byte_lines(lines@),
            )[k] by {
                assert(texts_read@[k] == before[k]);
                assert(texts(before)[k] == line_texts(byte_lines(lines@)).subrange(0, i as int)[k]);
            }
            assert(texts(texts_read@) =~= line_texts(byte_lines(lines@)).subrange(0, i + 1));
        }
        assert(line_texts(byte_lines(lines@)).subrange(0, n as int) =~= line_texts(byte_lines(lines@)));
        self.patterns.evaluate_lines(&texts_read)
    }
}

} // verus!
