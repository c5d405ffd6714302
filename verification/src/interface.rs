//! Decisions of the user interface: separator labels, the strength label,
//! masking a secret, and when to regenerate or drop a confirmation.

use crate::charset::Charset;
use crate::credentials::SecretMode;
use crate::text::push_char;
use vstd::prelude::*;

verus! {

/// Quiet period, in milliseconds, after the last settings change before
/// regenerating, so dragging a slider doesn't fire a generation per frame.
pub const AUTO_REGEN_DEBOUNCE_MS: u64 = 350;

/// How soon, in milliseconds, to look again while a generation runs.
pub const POLL_INTERVAL_MS: u64 = 16;

/// How long, in milliseconds, the copy confirmation stays visible.
pub const COPY_FEEDBACK_MS: u64 = 1500;

/// The separator choices offered for passphrases, with their labels.
pub open spec fn spec_separators() -> Seq<(char, &'static str)> {
    seq![('-', "- hyphen"), ('_', "_ underscore"), ('.', ". period"), (' ', "space")]
}

/// Separator choices offered for passphrases.
pub fn passphrase_separators() -> (r: Vec<(char, &'static str)>)
    ensures
        r@ == spec_separators(),
{
    let r = vec![('-', "- hyphen"), ('_', "_ underscore"), ('.', ". period"), (' ', "space")];
    assert(r@ =~= spec_separators());
    r
}

/// The label of the first separator choice that is `separator`, or `?`.
pub open spec fn spec_separator_label(separator: char) -> Seq<char> {
    if separator == '-' {
        "- hyphen"@
    } else if separator == '_' {
        "_ underscore"@
    } else if separator == '.' {
        ". period"@
    } else if separator == ' ' {
        "space"@
    } else {
        "?"@
    }
}

/// The label shown for a separator.
pub fn separator_label(separator: char) -> (r: &'static str)
    ensures
        r@ == spec_separator_label(separator),
{
    let choices = passphrase_separators();
    let n = choices.len();
    for i in 0..n
        invariant
            n == choices@.len(),
            choices@ == spec_separators(),
            forall|j: int| 0 <= j < i ==> (#[trigger] choices@[j]).0 != separator,
    {
        if choices[i].0 == separator {
            return choices[i].1;
        }
    }
    assert(choices@[0].0 != separator);
    assert(choices@[1].0 != separator);
    assert(choices@[2].0 != separator);
    assert(choices@[3].0 != separator);
    "?"
}

/// The strength label for an entropy estimate in whole bits.
pub open spec fn spec_strength_label(bits: u32) -> Seq<char> {
    if bits <= 39 {
        "Weak"@
    } else if bits <= 71 {
        "Fair"@
    } else if bits <= 99 {
        "Strong"@
    } else {
        "Very strong"@
    }
}

/// The strength bands: up to 39 bits is weak, 40 to 71 fair, 72 to 99
/// strong, and every estimate of 100 bits or more very strong; so the label
/// never falls as the bits grow.
pub proof fn lemma_strength_bands(bits: u32)
    ensures
        bits <= 39 ==> spec_strength_label(bits) == "Weak"@,
        40 <= bits <= 71 ==> spec_strength_label(bits) == "Fair"@,
        72 <= bits <= 99 ==> spec_strength_label(bits) == "Strong"@,
        bits >= 100 ==> spec_strength_label(bits) == "Very strong"@,
{
}

/// The strength label for an entropy estimate in whole bits.
pub fn strength_label(bits: u32) -> (r: &'static str)
    ensures
        r@ == spec_strength_label(bits),
        bits <= 39 ==> r@ == "Weak"@,
        40 <= bits <= 71 ==> r@ == "Fair"@,
        72 <= bits <= 99 ==> r@ == "Strong"@,
        bits >= 100 ==> r@ == "Very strong"@,
{
    if bits <= 39 {
        "Weak"
    } else if bits <= 71 {
        "Fair"
    } else if bits <= 99 {
        "Strong"
    } else {
        "Very strong"
    }
}

/// A hidden secret: one bullet per character.
pub fn masked(value: &str) -> (r: String)
    ensures
        r@ == Seq::new(value@.len(), |i: int| '•'),
{
    let mut out = String::new();
    for c in it: value.chars()
        invariant
            it.seq() == value@,
            out@ == Seq::new(it.index() as nat, |i: int| '•'),
    {
        push_char(&mut out, '•');
        proof {
            assert(out@ =~= Seq::new((it.index() + 1) as nat, |i: int| '•'));
        }
    }
    out
}

/// The settings that shape the generated credentials, for change
/// detection. The entropy-source settings are left out: they don't
/// invalidate the current credentials.
#[derive(Clone, Copy, PartialEq, Eq, Structural, Debug)]
pub struct CredentialShape {
    pub charset: Charset,
    pub length: usize,
    pub mode: SecretMode,
    pub passphrase_words: usize,
    pub passphrase_separator: char,
    pub passphrase_capitalize: bool,
    pub with_username: bool,
    pub username_digits: usize,
}

/// What the interface should do after a regeneration check.
#[derive(Clone, Copy, PartialEq, Eq, Structural, Debug)]
pub enum RegenAction {
    /// Nothing is pending.
    Idle,
    /// Look again after this many milliseconds.
    RepaintAfter(u64),
    /// Start a generation now.
    Start,
}

/// The regeneration state: the settings seen last, and when (in
/// milliseconds on the caller's monotonic clock) the most recent change
/// happened, if a regeneration is pending.
pub struct RegenState {
    pub last_shape: Option<CredentialShape>,
    pub pending_since: Option<u64>,
}

/// When the pending regeneration started once `shape` has been seen at
/// `now`: a change of settings restarts the timer.
pub open spec fn pending_after(
    last_shape: Option<CredentialShape>,
    pending_since: Option<u64>,
    shape: CredentialShape,
    now: u64,
) -> Option<u64> {
    match last_shape {
        Some(last) => if last != shape {
            Some(now)
        } else {
            pending_since
        },
        None => pending_since,
    }
}

/// Milliseconds from `since` to `now`, zero if the clock reads earlier.
pub open spec fn elapsed(since: u64, now: u64) -> u64 {
    if now >= since {
        (now - since) as u64
    } else {
        0
    }
}

/// A change of settings restarts the timer: the step that sees it finds
/// nothing elapsed, so it never starts a generation and asks to look again
/// after the whole debounce window.
pub proof fn lemma_change_restarts_timer(
    last: CredentialShape,
    pending_since: Option<u64>,
    shape: CredentialShape,
    now: u64,
)
    requires
        last != shape,
    ensures
        pending_after(Some(last), pending_since, shape, now) == Some(now),
        elapsed(now, now) == 0,
        elapsed(now, now) < AUTO_REGEN_DEBOUNCE_MS,
{
}

impl RegenState {
    /// No settings seen yet and nothing pending.
    pub fn new() -> (r: RegenState)
        ensures
            r.last_shape is None,
            r.pending_since is None,
    {
        RegenState { last_shape: None, pending_since: None }
    }

    /// Regenerate automatically once the settings have been stable for the
    /// debounce window. Each further change restarts the timer; if a
    /// generation is already running when the timer fires, the regeneration
    /// stays pending and is retried.
    pub fn step(&mut self, shape: CredentialShape, now: u64, generating: bool) -> (r: RegenAction)
        ensures
            final(self).last_shape == Some(shape),
            r == RegenAction::Start ==> !generating,
            ({
                let pending = pending_after(old(self).last_shape, old(self).pending_since, shape, now);
                match pending {
                    None => r == RegenAction::Idle && final(self).pending_since is None,
                    Some(since) => if elapsed(since, now) < AUTO_REGEN_DEBOUNCE_MS {
                        r == RegenAction::RepaintAfter((AUTO_REGEN_DEBOUNCE_MS - elapsed(since, now)) as u64)
                            && final(self).pending_since == pending
                    } else if generating {
                        r == RegenAction::RepaintAfter(POLL_INTERVAL_MS) && final(self).pending_since
                            == pending
                    } else {
                        r == RegenAction::Start && final(self).pending_since is None
                    },
                }
            }),
    {
        match self.last_shape {
            None => {
                self.last_shape = Some(shape);
            },
            Some(last) => {
                if last != shape {
                    self.last_shape = Some(shape);
                    self.pending_since = Some(now);
                }
            },
        }
        let since = match self.pending_since {
            Some(since) => since,
            None => {
                return RegenAction::Idle;
            },
        };
        let elapsed = if now >= since {
            now - since
        } else {
            0
        };
        if elapsed < AUTO_REGEN_DEBOUNCE_MS {
            RegenAction::RepaintAfter(AUTO_REGEN_DEBOUNCE_MS - elapsed)
        } else if generating {
            RegenAction::RepaintAfter(POLL_INTERVAL_MS)
        } else {
            self.pending_since = None;
            RegenAction::Start
        }
    }
}

/// What to do with a copy confirmation shown for `elapsed_ms`.
#[derive(Clone, Copy, PartialEq, Eq, Structural, Debug)]
pub enum FeedbackAction {
    /// Drop the confirmation.
    Expire,
    /// Keep it, and look again after this many milliseconds.
    RepaintAfter(u64),
}

/// Drop the copy confirmation once it has been shown long enough.
pub fn copy_feedback_step(elapsed_ms: u64) -> (r: FeedbackAction)
    ensures
        elapsed_ms >= COPY_FEEDBACK_MS ==> r == FeedbackAction::Expire,
        elapsed_ms < COPY_FEEDBACK_MS ==> r == FeedbackAction::RepaintAfter(
            (COPY_FEEDBACK_MS - elapsed_ms) as u64,
        ),
{
    if elapsed_ms >= COPY_FEEDBACK_MS {
        FeedbackAction::Expire
    } else {
        FeedbackAction::RepaintAfter(COPY_FEEDBACK_MS - elapsed_ms)
    }
}

} // verus!
