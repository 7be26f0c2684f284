//! Request budget: how many requests may start in one window, how far apart
//! two requests must therefore be, and a gate that keeps them that far
//! apart.
//!
//! A gate never sleeps and never reads a clock. The caller hands it the
//! current instant, in milliseconds on a clock of its choice, and is told
//! either that the request may start or how long it has to wait before it
//! asks again. Every method takes `&mut self`, so callers on several threads
//! have to share one gate behind a lock, and their calls reach it one after
//! another.

use vstd::prelude::*;

verus! {

/// Length of the window over which the remote service counts requests.
pub const WINDOW_MILLIS: u64 = 30_000;

/// Largest number of requests the remote service admits in one window.
pub const MAX_RATE: u64 = 45;

/// Rate used when the requested one is above `MAX_RATE`.
pub const DEFAULT_RATE: u64 = 30;

/// The rate that is used for a requested rate: zero becomes the slowest rate
/// of one request per window, a rate above `MAX_RATE` becomes
/// `DEFAULT_RATE`, and every other rate is taken as it is.
pub open spec fn effective_rate_spec(requested: u64) -> u64 {
    if requested == 0 {
        1
    } else if requested <= MAX_RATE {
        requested
    } else {
        DEFAULT_RATE
    }
}

/// The least whole number of milliseconds that is no shorter than the
/// window divided by `rate`.
pub open spec fn spacing_spec(rate: u64) -> int
    recommends
        rate >= 1,
{
    (WINDOW_MILLIS + rate - 1) / (rate as int)
}

/// The rate that is used for a requested rate. It lies between one and
/// `MAX_RATE`.
pub fn effective_rate(requested: u64) -> (rate: u64)
    ensures
        rate == effective_rate_spec(requested),
        1 <= rate <= MAX_RATE,
        requested > MAX_RATE ==> rate == DEFAULT_RATE,
{
    if requested == 0 {
        1
    } else if requested <= MAX_RATE {
        requested
    } else {
        DEFAULT_RATE
    }
}

/// Milliseconds that must pass between the starts of two requests when
/// `requested` requests per window were asked for.
pub fn spacing_millis(requested: u64) -> (millis: u64)
    ensures
        millis == spacing_spec(effective_rate_spec(requested)),
        millis * effective_rate_spec(requested) >= WINDOW_MILLIS,
        (millis - 1) * effective_rate_spec(requested) < WINDOW_MILLIS,
        requested == DEFAULT_RATE ==> millis == 1000,
{
    let rate: u64 = effective_rate(requested);
    let millis: u64 = (WINDOW_MILLIS + rate - 1) / rate;
    proof {
        lemma_spacing_fills_window(rate);
    }
    millis
}

/// `spacing_spec(rate)` is the least spacing at which `rate` requests fill
/// a window: that many spacings are no shorter than the window, and one
/// millisecond less each would be.
pub proof fn lemma_spacing_fills_window(rate: u64)
    requires
        1 <= rate <= MAX_RATE,
    ensures
        1 <= spacing_spec(rate) <= WINDOW_MILLIS,
        spacing_spec(rate) * rate >= WINDOW_MILLIS,
        (spacing_spec(rate) - 1) * rate < WINDOW_MILLIS,
        rate == DEFAULT_RATE ==> spacing_spec(rate) == 1000,
{
    let r: int = rate as int;
    let n: int = WINDOW_MILLIS + rate - 1;
    let q: int = n / r;
    assert(n == q * r + n % r && 0 <= n % r < r) by (nonlinear_arith)
        requires
            r >= 1,
            q == n / r,
    ;
    assert(q * r >= 30_000 && (q - 1) * r < 30_000 && 1 <= q <= 30_000) by (nonlinear_arith)
        requires
            n == q * r + n % r,
            0 <= n % r < r,
            n == 30_000 + r - 1,
            1 <= r <= 45,
    ;
    if rate == DEFAULT_RATE {
        assert(q == 1000) by (nonlinear_arith)
            requires
                q * r >= 30_000,
                (q - 1) * r < 30_000,
                r == 30,
        ;
    }
}

/// What a gate answers to one request for a permit.
#[derive(Clone, Copy, Debug, PartialEq, Eq, Structural)]
pub enum Permit {
    /// The request may start now.
    Granted,
    /// The request may not start yet; ask again after this many
    /// milliseconds.
    Wait { millis: u64 },
}

/// What a gate knows: the spacing it keeps and the instant of the permit it
/// granted last, if it granted one.
pub struct GateModel {
    pub spacing: nat,
    pub last: Option<nat>,
}

impl GateModel {
    /// A request at `now` is granted when no permit was granted before, or
    /// the last one lies at least one spacing back.
    pub open spec fn admits(self, now: nat) -> bool {
        match self.last {
            None => true,
            Some(t) => now >= t + self.spacing,
        }
    }

    /// Milliseconds from `now` to the first instant that this gate admits.
    pub open spec fn shortfall(self, now: nat) -> nat {
        match self.last {
            None => 0,
            Some(t) => if now >= t + self.spacing {
                0
            } else {
                (t + self.spacing - now) as nat
            },
        }
    }

    /// This gate after a request at `now`: a granted permit becomes the last
    /// one, a refused request changes nothing.
    pub open spec fn after(self, now: nat) -> GateModel {
        if self.admits(now) {
            GateModel { spacing: self.spacing, last: Some(now) }
        } else {
            self
        }
    }

    /// The instants at which permits are granted when requests reach the
    /// gate at the instants `polls`, in that order.
    pub open spec fn grants(self, polls: Seq<nat>) -> Seq<nat>
        decreases polls.len(),
    {
        if polls.len() == 0 {
            Seq::empty()
        } else if self.admits(polls[0]) {
            seq![polls[0]] + self.after(polls[0]).grants(polls.drop_first())
        } else {
            self.grants(polls.drop_first())
        }
    }
}

/// Keeps the starts of requests at least one spacing apart.
pub struct RateGate {
    spacing: u64,
    last: Option<u64>,
}

impl View for RateGate {
    type V = GateModel;

    closed spec fn view(&self) -> GateModel {
        GateModel {
            spacing: self.spacing as nat,
            last: match self.last {
                None => None,
                Some(t) => Some(t as nat),
            },
        }
    }
}

impl RateGate {
    /// A gate for `requested` requests per window that has granted no permit
    /// yet.
    pub fn new(requested: u64) -> (gate: RateGate)
        ensures
            gate@.spacing == spacing_spec(effective_rate_spec(requested)),
            gate@.last is None,
    {
        RateGate { spacing: spacing_millis(requested), last: None }
    }

    /// Milliseconds that this gate keeps between two permits.
    pub fn spacing(&self) -> (millis: u64)
        ensures
            millis == self@.spacing,
    {
        self.spacing
    }

    /// Asks for a permit at the instant `now`. The permit is granted when
    /// this gate admits `now`, and `now` is then remembered. Otherwise
    /// nothing changes and the answer tells how long to wait; a wait
    /// that does not fit the integer is cut down to the largest one that
    /// does.
    pub fn acquire(&mut self, now: u64) -> (permit: Permit)
        ensures
            final(self)@ == old(self)@.after(now as nat),
            old(self)@.admits(now as nat) ==> permit == Permit::Granted,
            !old(self)@.admits(now as nat) ==> permit == (Permit::Wait {
                millis: if old(self)@.shortfall(now as nat) <= u64::MAX {
                    old(self)@.shortfall(now as nat) as u64
                } else {
                    u64::MAX
                },
            }),
    {
        match self.last {
            None => {
                self.last = Some(now);
                Permit::Granted
            },
            Some(t) => {
                if now >= t && now - t >= self.spacing {
                    self.last = Some(now);
                    Permit::Granted
                } else if now >= t {
                    Permit::Wait { millis: self.spacing - (now - t) }
                } else {
                    Permit::Wait { millis: (t - now).saturating_add(self.spacing) }
                }
            },
        }
    }
}

/// The wait that a refused request is told is the time it needs: a request
/// that comes again after that wait is granted, and one that comes sooner is
/// not.
pub proof fn lemma_wait_suffices(gate: GateModel, now: nat)
    ensures
        gate.admits(now + gate.shortfall(now)),
        forall|sooner: nat| now <= sooner < now + gate.shortfall(now) ==> !gate.admits(sooner),
        gate.admits(now) <==> gate.shortfall(now) == 0,
{
}

/// Any two permits that a gate grants lie at least as many spacings apart as
/// there are permits from the one to the other, whatever the instants at
/// which they were asked for; and the first of them lies at least one
/// spacing after the permit that was granted last before them.
pub proof fn lemma_grants_are_spaced(gate: GateModel, polls: Seq<nat>)
    ensures
        forall|i: int, j: int|
            0 <= i <= j < gate.grants(polls).len() ==> #[trigger] gate.grants(polls)[j]
                - #[trigger] gate.grants(polls)[i] >= (j - i) * gate.spacing,
        gate.last is Some && gate.grants(polls).len() > 0 ==> gate.grants(polls)[0]
            >= gate.last->0 + gate.spacing,
    decreases polls.len(),
{
    if polls.len() == 0 {
    } else if gate.admits(polls[0]) {
        let next = gate.after(polls[0]);
        let rest = next.grants(polls.drop_first());
        let all = gate.grants(polls);
        lemma_grants_are_spaced(next, polls.drop_first());
        assert(all =~= seq![polls[0]] + rest);
        assert forall|i: int, j: int| 0 <= i <= j < all.len() implies #[trigger] all[j]
            - #[trigger] all[i] >= (j - i) * gate.spacing by {
            let s: int = gate.spacing as int;
            if i == 0 && j > 0 {
                assert(rest[j - 1] - rest[0] >= (j - 1) * s);
                assert(rest[0] >= polls[0] + s);
                assert((j - 1) * s + s == j * s) by (nonlinear_arith);
            } else if i > 0 {
                assert(rest[j - 1] - rest[i - 1] >= ((j - 1) - (i - 1)) * s);
            } else {
                assert((j - i) * s == 0) by (nonlinear_arith)
                    requires
                        j == i,
                ;
            }
        }
    } else {
        lemma_grants_are_spaced(gate, polls.drop_first());
    }
}

/// A gate made for a rate never grants more permits in one window than that
/// rate: of `rate + 1` permits in a row, the last lies a whole window or more
/// after the first.
pub proof fn lemma_grants_keep_budget(gate: GateModel, rate: u64, polls: Seq<nat>)
    requires
        1 <= rate <= MAX_RATE,
        gate.spacing == spacing_spec(rate),
    ensures
        forall|i: int|
            0 <= i && i + rate < gate.grants(polls).len() ==> #[trigger] gate.grants(polls)[i
                + rate] - gate.grants(polls)[i] >= WINDOW_MILLIS,
{
    lemma_grants_are_spaced(gate, polls);
    lemma_spacing_fills_window(rate);
    let g = gate.grants(polls);
    assert forall|i: int| 0 <= i && i + rate < g.len() implies #[trigger] g[i + rate] - g[i]
        >= WINDOW_MILLIS by {
        let j: int = i + rate;
        assert(g[j] - g[i] >= (j - i) * gate.spacing);
        assert((j - i) * gate.spacing == spacing_spec(rate) * rate) by (nonlinear_arith)
            requires
                j - i == rate,
                gate.spacing == spacing_spec(rate),
        ;
    }
}

} // verus!
