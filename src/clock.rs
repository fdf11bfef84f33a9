//! The countdown: how remaining time is written, and the ticks of one phase.
use vstd::prelude::*;
use vstd::string::StringExecFns;

verus! {

/// The character of a decimal digit.
pub open spec fn digit_char(d: nat) -> char
    recommends
        d < 10,
{
    seq!['0', '1', '2', '3', '4', '5', '6', '7', '8', '9'][d as int]
}

/// The decimal digits of `n`, most significant first, without leading zeros.
pub open spec fn decimal(n: nat) -> Seq<char>
    decreases n,
{
    if n < 10 {
        seq![digit_char(n)]
    } else {
        decimal(n / 10).push(digit_char(n % 10))
    }
}

/// `n` in decimal, padded with a zero to at least two digits.
pub open spec fn two_digits(n: nat) -> Seq<char> {
    if n < 10 {
        seq!['0'] + decimal(n)
    } else {
        decimal(n)
    }
}

/// How `remaining` seconds are shown: `mm:ss`, minutes not wrapped at an hour.
pub open spec fn clock_text(remaining: nat) -> Seq<char> {
    two_digits(remaining / 60) + seq![':'] + two_digits(remaining % 60)
}

/// Number of seconds in a phase of the given number of minutes.
pub fn phase_seconds(minutes: u32) -> (r: u64)
    ensures
        r == minutes * 60,
{
    minutes as u64 * 60
}

fn digit_str(d: u64) -> (r: &'static str)
    requires
        d < 10,
    ensures
        r@ == seq![digit_char(d as nat)],
{
    proof {
        reveal_strlit("0");
        reveal_strlit("1");
        reveal_strlit("2");
        reveal_strlit("3");
        reveal_strlit("4");
        reveal_strlit("5");
        reveal_strlit("6");
        reveal_strlit("7");
        reveal_strlit("8");
        reveal_strlit("9");
    }
    match d {
        0 => "0",
        1 => "1",
        2 => "2",
        3 => "3",
        4 => "4",
        5 => "5",
        6 => "6",
        7 => "7",
        8 => "8",
        _ => "9",
    }
}

pub(crate) fn push_decimal(s: &mut String, n: u64)
    ensures
        final(s)@ == old(s)@ + decimal(n as nat),
    decreases n,
{
    if n < 10 {
        s.append(digit_str(n));
    } else {
        push_decimal(s, n / 10);
        s.append(digit_str(n % 10));
        assert(final(s)@ =~= old(s)@ + decimal(n as nat));
    }
}

fn push_two_digits(s: &mut String, n: u64)
    ensures
        final(s)@ == old(s)@ + two_digits(n as nat),
{
    if n < 10 {
        proof {
            reveal_strlit("0");
        }
        s.append("0");
    }
    push_decimal(s, n);
    assert(final(s)@ =~= old(s)@ + two_digits(n as nat));
}

/// Writes `remaining` seconds as `mm:ss`, each field zero-padded to two digits.
pub fn format_clock(remaining: u64) -> (r: String)
    ensures
        r@ == clock_text(remaining as nat),
{
    let mut s = String::new();
    push_two_digits(&mut s, remaining / 60);
    proof {
        reveal_strlit(":");
    }
    s.append(":");
    push_two_digits(&mut s, remaining % 60);
    assert(s@ =~= clock_text(remaining as nat));
    s
}

/// A running countdown of one phase: how many seconds it lasts and how many
/// have been shown. Each tick is one display update followed by a wait of one
/// second; a cancelled countdown shows nothing more.
pub struct Countdown {
    total: u64,
    elapsed: u64,
}

impl Countdown {
    /// The length of the countdown in seconds.
    pub closed spec fn total_seconds(&self) -> nat {
        self.total as nat
    }

    /// The number of ticks shown so far.
    pub closed spec fn elapsed_seconds(&self) -> nat {
        self.elapsed as nat
    }

    /// No more ticks have been shown than the countdown has seconds.
    pub closed spec fn wf(&self) -> bool {
        self.elapsed <= self.total
    }

    /// A countdown of `total_seconds` with nothing shown yet.
    pub fn new(total_seconds: u64) -> (r: Countdown)
        ensures
            r.wf(),
            r.total_seconds() == total_seconds,
            r.elapsed_seconds() == 0,
    {
        Countdown { total: total_seconds, elapsed: 0 }
    }

    /// The seconds still to count.
    pub fn remaining(&self) -> (r: u64)
        requires
            self.wf(),
        ensures
            r == self.total_seconds() - self.elapsed_seconds(),
    {
        self.total - self.elapsed
    }

    /// Whether every tick has been shown.
    pub fn is_finished(&self) -> (r: bool)
        requires
            self.wf(),
        ensures
            r == (self.elapsed_seconds() == self.total_seconds()),
    {
        self.elapsed == self.total
    }

    /// The next display update: the remaining time after this tick's second,
    /// counting from `total - 1` down to `0`; `None` once the countdown is over.
    pub fn tick(&mut self) -> (r: Option<String>)
        requires
            old(self).wf(),
        ensures
            final(self).wf(),
            final(self).total_seconds() == old(self).total_seconds(),
            old(self).elapsed_seconds() < old(self).total_seconds() ==> {
                &&& r is Some
                &&& r->Some_0@ == clock_text(
                    (old(self).total_seconds() - old(self).elapsed_seconds() - 1) as nat,
                )
                &&& final(self).elapsed_seconds() == old(self).elapsed_seconds() + 1
            },
            old(self).elapsed_seconds() == old(self).total_seconds() ==> {
                &&& r is None
                &&& final(self).elapsed_seconds() == old(self).elapsed_seconds()
            },
    {
        if self.elapsed < self.total {
            let text = format_clock(self.total - self.elapsed - 1);
            self.elapsed = self.elapsed + 1;
            Some(text)
        } else {
            None
        }
    }

    /// Stops the countdown: no tick follows.
    pub fn cancel(&mut self)
        requires
            old(self).wf(),
        ensures
            final(self).wf(),
            final(self).total_seconds() == old(self).total_seconds(),
            final(self).elapsed_seconds() == final(self).total_seconds(),
    {
        self.elapsed = self.total;
    }
}

/// Every display update of a countdown of `total_seconds`, in order: one per
/// second, from `total_seconds - 1` down to `0`; none for a zero-length one.
pub fn countdown_frames(total_seconds: u64) -> (r: Vec<String>)
    ensures
        r@.len() == total_seconds,
        forall|k: int|
            0 <= k < total_seconds ==> (#[trigger] r@[k])@ == clock_text(
                (total_seconds - 1 - k) as nat,
            ),
{
    let mut countdown = Countdown::new(total_seconds);
    let mut frames: Vec<String> = Vec::new();
    while !countdown.is_finished()
        invariant
            countdown.wf(),
            countdown.total_seconds() == total_seconds,
            frames@.len() == countdown.elapsed_seconds(),
            forall|k: int|
                0 <= k < frames@.len() ==> (#[trigger] frames@[k])@ == clock_text(
                    (total_seconds - 1 - k) as nat,
                ),
        decreases countdown.total_seconds() - countdown.elapsed_seconds(),
    {
        if let Some(text) = countdown.tick() {
            frames.push(text);
        }
    }
    frames
}

} // verus!
