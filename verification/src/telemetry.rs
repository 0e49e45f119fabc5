//! What a transcript's tail tells of its session.

use vstd::prelude::*;
use crate::text::opt_text;

verus! {

/// Facts read from a transcript tail.
#[derive(Debug, Clone, PartialEq, Eq)]
pub struct TailFacts {
    /// A question to the user has no answer yet.
    pub pending_question: bool,
    /// The session's semantic title.
    pub ai_title: Option<String>,
    /// Tokens in the context window.
    pub context_tokens: Option<u64>,
}

/// What `TailFacts` stand for.
pub struct TailFactsModel {
    pub pending_question: bool,
    pub ai_title: Option<Seq<char>>,
    pub context_tokens: Option<u64>,
}

/// The facts of a transcript that says nothing.
pub open spec fn no_facts() -> TailFactsModel {
    TailFactsModel { pending_question: false, ai_title: None, context_tokens: None }
}

impl View for TailFacts {
    type V = TailFactsModel;

    open spec fn view(&self) -> TailFactsModel {
        TailFactsModel {
            pending_question: self.pending_question,
            ai_title: opt_text(self.ai_title),
            context_tokens: self.context_tokens,
        }
    }
}

impl Default for TailFacts {
    fn default() -> (r: Self)
        ensures
            r@ == no_facts(),
    {
        TailFacts { pending_question: false, ai_title: None, context_tokens: None }
    }
}

/// One session's telemetry.
#[derive(Debug, Clone, PartialEq, Eq)]
pub struct Telemetry {
    /// Facts from the tail; `None` where there is no readable transcript yet.
    pub facts: Option<TailFacts>,
    /// Seconds since the transcript last grew.
    pub secs_since_append: Option<u64>,
}

/// What a `Telemetry` stands for.
pub struct TelemetryModel {
    pub facts: Option<TailFactsModel>,
    pub secs_since_append: Option<u64>,
}

impl View for Telemetry {
    type V = TelemetryModel;

    open spec fn view(&self) -> TelemetryModel {
        TelemetryModel {
            facts: match self.facts {
                Some(f) => Some(f@),
                None => None,
            },
            secs_since_append: self.secs_since_append,
        }
    }
}

impl Default for Telemetry {
    fn default() -> (r: Self)
        ensures
            r@ == (TelemetryModel { facts: None, secs_since_append: None }),
    {
        Telemetry { facts: None, secs_since_append: None }
    }
}

/// The context window that `tokens` are measured against: the small one, until it is exceeded.
pub open spec fn context_window(tokens: u64) -> u64 {
    if tokens <= 200_000 {
        200_000
    } else {
        1_000_000
    }
}

/// `part` as a whole percentage of `whole`, the product by a hundred capped at what a `u64`
/// holds.
pub open spec fn percent(part: u64, whole: u64) -> u64 {
    ((if part * 100 <= u64::MAX {
        part * 100
    } else {
        u64::MAX as int
    }) / whole as int) as u64
}

/// `part` as a whole percentage of `whole`.
pub fn percent_of(part: u64, whole: u64) -> (r: u64)
    requires
        whole > 0,
    ensures
        r == percent(part, whole),
{
    let scaled: u64 = if part <= u64::MAX / 100 {
        part * 100
    } else {
        u64::MAX
    };
    scaled / whole
}

/// How much of its context window a session has used, in percent.
pub fn ctx_used_pct(tokens: u64) -> (r: u64)
    ensures
        r == percent(tokens, context_window(tokens)),
{
    percent_of(
        tokens,
        if tokens <= 200_000 {
            200_000
        } else {
            1_000_000
        },
    )
}

/// A percentage as a byte, the largest one where it is larger.
pub open spec fn clamped_pct(pct: u64) -> u8 {
    if pct <= 255 {
        pct as u8
    } else {
        255
    }
}

/// A percentage is the largest whole one that does not exceed the share, as long as a hundred
/// times the part fits.
pub proof fn a_percentage_is_rounded_down(part: u64, whole: u64)
    requires
        whole > 0,
        part * 100 <= u64::MAX,
    ensures
        percent(part, whole) * whole <= part * 100 < (percent(part, whole) + 1) * whole,
{
    let scaled = part * 100;
    let w = whole as int;
    assert(scaled / w * w <= scaled < (scaled / w + 1) * w) by (nonlinear_arith)
        requires
            w > 0,
            scaled >= 0,
    ;
    assert(0 <= scaled / w <= scaled) by (nonlinear_arith)
        requires
            w > 0,
            scaled >= 0,
    ;
}

/// However absurd the part, a percentage never wraps round: it is that of the largest part that
/// can be scaled.
pub proof fn a_percentage_never_wraps(part: u64, whole: u64)
    requires
        whole > 0,
        part * 100 > u64::MAX,
    ensures
        percent(part, whole) * whole <= u64::MAX < (percent(part, whole) + 1) * whole,
{
    let scaled = u64::MAX as int;
    let w = whole as int;
    assert(scaled / w * w <= scaled < (scaled / w + 1) * w) by (nonlinear_arith)
        requires
            w > 0,
            scaled >= 0,
    ;
    assert(0 <= scaled / w <= scaled) by (nonlinear_arith)
        requires
            w > 0,
            scaled >= 0,
    ;
}

/// A session is measured against two hundred thousand tokens until it exceeds them, and against a
/// million from there on.
pub proof fn the_window_grows_once_exceeded(tokens: u64)
    ensures
        tokens <= 200_000 ==> context_window(tokens) == 200_000,
        tokens > 200_000 ==> context_window(tokens) == 1_000_000,
{
}

/// Clamping leaves what a byte holds as it is, and makes all else the largest byte.
pub proof fn clamping_keeps_what_fits(pct: u64)
    ensures
        clamped_pct(pct) <= pct,
        pct <= 255 ==> clamped_pct(pct) == pct,
        pct > 255 ==> clamped_pct(pct) == 255,
{
}

/// The models hold what the values hold.
pub proof fn telemetry_models_hold_every_field(facts: TailFacts, tel: Telemetry)
    ensures
        facts@.pending_question == facts.pending_question,
        facts.ai_title matches Some(t) ==> facts@.ai_title == Some(t@),
        facts.ai_title is None ==> facts@.ai_title is None,
        facts@.context_tokens == facts.context_tokens,
        tel.facts matches Some(f) ==> tel@.facts == Some(f@),
        tel.facts is None ==> tel@.facts is None,
        tel@.secs_since_append == tel.secs_since_append,
        !no_facts().pending_question && no_facts().ai_title is None && no_facts().context_tokens
            is None,
{
}

} // verus!
