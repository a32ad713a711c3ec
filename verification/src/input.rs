//! The input capability: multi-button edge-wait primitives.

use vstd::prelude::*;

verus! {

/// The multi-button wait: blocks until one of the fixed physical buttons
/// goes from released to pressed. `press_ahead` says that the buttons will
/// eventually all read released and one of them afterwards read pressed;
/// the wait is entered only then, since it would otherwise never return.
pub trait Input {
    spec fn press_ahead(&self) -> bool;

    fn wait_for_button(&mut self)
        requires
            old(self).press_ahead(),
    ;
}

/// The reading that round `t` of polling will produce from a line whose
/// still-to-come readings are `u`: beyond its readings a line reads
/// released.
pub open spec fn reading_at(u: Seq<bool>, t: int) -> bool {
    if 0 <= t < u.len() {
        u[t]
    } else {
        false
    }
}

/// `u` after `t` readings have been consumed.
pub open spec fn skip_clip(u: Seq<bool>, t: int) -> Seq<bool> {
    if 0 <= t <= u.len() {
        u.skip(t)
    } else {
        Seq::empty()
    }
}

/// One hardware-debounced button line, polled by sampling. `observed()` is
/// the history of readings the line has produced, `true` for pressed;
/// `upcoming()` the readings it will still produce, after which it reads
/// released. A wait states over these what it saw and why it returned.
pub trait ButtonPin {
    spec fn observed(&self) -> Seq<bool>;

    spec fn upcoming(&self) -> Seq<bool>;

    /// Samples the line once.
    fn read_pressed(&mut self) -> (pressed: bool)
        ensures
            final(self).observed() == old(self).observed().push(pressed),
            pressed == reading_at(old(self).upcoming(), 0),
            final(self).upcoming() == skip_clip(old(self).upcoming(), 1),
    ;
}

/// A button line that replays a fixed script of readings and then reads
/// released forever; the in-memory stand-in for a physical line.
pub struct ScriptPin {
    script: Vec<bool>,
    next: usize,
    log: Ghost<Seq<bool>>,
}

impl ScriptPin {
    pub closed spec fn spec_position(&self) -> usize {
        self.next
    }

    /// How many scripted readings have been consumed.
    pub fn position(&self) -> (p: usize)
        ensures
            p == self.spec_position(),
    {
        self.next
    }

    pub fn new(script: Vec<bool>) -> (p: ScriptPin)
        ensures
            p.observed() == Seq::<bool>::empty(),
            p.upcoming() == script@,
            p.spec_position() == 0,
    {
        ScriptPin { script, next: 0, log: Ghost(Seq::empty()) }
    }
}

impl ButtonPin for ScriptPin {
    closed spec fn observed(&self) -> Seq<bool> {
        self.log@
    }

    closed spec fn upcoming(&self) -> Seq<bool> {
        if self.next <= self.script@.len() {
            self.script@.skip(self.next as int)
        } else {
            Seq::empty()
        }
    }

    fn read_pressed(&mut self) -> (pressed: bool) {
        let v: bool = if self.next < self.script.len() {
            let b = self.script[self.next];
            self.next = self.next + 1;
            b
        } else {
            false
        };
        proof {
            self.log@ = self.log@.push(v);
            assert(final(self).upcoming() =~= skip_clip(old(self).upcoming(), 1));
        }
        v
    }
}

/// A release followed by a press lies ahead of the line: a wait on it comes
/// back.
pub open spec fn press_ahead_in(u: Seq<bool>) -> bool {
    exists|i: int, j: int| 0 <= i < j && !reading_at(u, i) && reading_at(u, j)
}

/// One button: waits for its line to read released, then for it to read
/// pressed, so that a press held over from before the call cannot satisfy
/// the wait.
pub struct Button<P: ButtonPin> {
    pin: P,
}

impl<P: ButtonPin> Button<P> {
    pub closed spec fn spec_pin(&self) -> P {
        self.pin
    }

    /// The readings this button's line has produced.
    pub open spec fn observed(&self) -> Seq<bool> {
        self.spec_pin().observed()
    }

    /// The readings this button's line will still produce.
    pub open spec fn upcoming(&self) -> Seq<bool> {
        self.spec_pin().upcoming()
    }

    pub fn new(pin: P) -> (b: Button<P>)
        ensures
            b.spec_pin() == pin,
    {
        Button { pin }
    }

    pub fn free(self) -> (pin: P)
        ensures
            pin == self.spec_pin(),
    {
        self.pin
    }

    /// Blocks until the line reads released and afterwards reads pressed:
    /// the wait returns only once its final sample reads pressed, and some
    /// earlier sample of the same call read released.
    pub fn wait_for_press(&mut self)
        requires
            press_ahead_in(old(self).upcoming()),
        ensures
            final(self).observed().len() >= old(self).observed().len() + 2,
            final(self).observed().take(old(self).observed().len() as int)
                == old(self).observed(),
            final(self).observed().last() == true,
            exists|j: int|
                old(self).observed().len() <= j < final(self).observed().len() - 1
                    && final(self).observed()[j] == false,
    {
        let ghost up0 = self.upcoming();
        let ghost n0 = self.observed().len();
        let ghost (wi, wj) = choose|i: int, j: int|
            0 <= i < j && !reading_at(up0, i) && reading_at(up0, j);
        let ghost mut t: int = 0;
        loop
            invariant_except_break
                t <= wi,
            invariant
                0 <= t,
                wi < wj,
                !reading_at(up0, wi),
                reading_at(up0, wj),
                self.observed().len() == n0 + t,
                self.observed().take(n0 as int) == old(self).observed(),
                self.upcoming() == skip_clip(up0, t),
            ensures
                1 <= t <= wi + 1,
                self.observed().len() == n0 + t,
                self.observed().take(n0 as int) == old(self).observed(),
                self.upcoming() == skip_clip(up0, t),
                self.observed().last() == false,
                !reading_at(up0, t - 1),
            decreases wi - t,
        {
            let ghost before = self.upcoming();
            let pressed = self.pin.read_pressed();
            proof {
                t = t + 1;
                assert(reading_at(before, 0) == reading_at(up0, t - 1));
                assert(skip_clip(before, 1) =~= skip_clip(up0, t));
                assert(self.observed().take(n0 as int) =~= self.observed().drop_last().take(
                    n0 as int,
                ));
            }
            if !pressed {
                break ;
            }
        }
        let ghost released_at = self.observed().len() - 1;
        proof {
            assert(t <= wj);
        }
        loop
            invariant_except_break
                t <= wj,
            invariant
                1 <= t,
                wi < wj,
                !reading_at(up0, wi),
                reading_at(up0, wj),
                n0 <= released_at < n0 + t,
                self.observed().len() == n0 + t,
                self.observed().take(n0 as int) == old(self).observed(),
                self.upcoming() == skip_clip(up0, t),
                self.observed()[released_at] == false,
            ensures
                self.observed().len() > released_at + 1,
                self.observed().take(n0 as int) == old(self).observed(),
                self.observed()[released_at] == false,
                self.observed().last() == true,
            decreases wj - t,
        {
            let ghost before = self.upcoming();
            let pressed = self.pin.read_pressed();
            proof {
                t = t + 1;
                assert(reading_at(before, 0) == reading_at(up0, t - 1));
                assert(skip_clip(before, 1) =~= skip_clip(up0, t));
                assert(self.observed().take(n0 as int) =~= self.observed().drop_last().take(
                    n0 as int,
                ));
                assert(self.observed()[released_at] == self.observed().drop_last()[released_at]);
            }
            if pressed {
                break ;
            }
        }
    }
}

impl<P: ButtonPin> Input for Button<P> {
    open spec fn press_ahead(&self) -> bool {
        press_ahead_in(self.upcoming())
    }

    fn wait_for_button(&mut self) {
        self.wait_for_press();
    }
}

/// What round `t` of polling three lines at once reads.
pub open spec fn round_released(a: Seq<bool>, b: Seq<bool>, c: Seq<bool>, t: int) -> bool {
    !reading_at(a, t) && !reading_at(b, t) && !reading_at(c, t)
}

pub open spec fn round_pressed(a: Seq<bool>, b: Seq<bool>, c: Seq<bool>, t: int) -> bool {
    reading_at(a, t) || reading_at(b, t) || reading_at(c, t)
}

/// Some polling round ahead reads all three lines released, and a later one
/// reads at least one pressed: a wait on the three comes back.
pub open spec fn press_ahead_rounds(a: Seq<bool>, b: Seq<bool>, c: Seq<bool>) -> bool {
    exists|i: int, j: int| 0 <= i < j && round_released(a, b, c, i) && round_pressed(a, b, c, j)
}

/// Three buttons polled together: waits for all lines to read released, then
/// for any to read pressed. Simultaneous presses resolve to whichever the
/// final round happens to show; there is no cross-button ordering guarantee.
pub struct Buttons<A: ButtonPin, B: ButtonPin, C: ButtonPin> {
    pub button_a: Button<A>,
    pub button_b: Button<B>,
    pub button_c: Button<C>,
}

impl<A: ButtonPin, B: ButtonPin, C: ButtonPin> Buttons<A, B, C> {
    pub fn new(button_a: Button<A>, button_b: Button<B>, button_c: Button<C>) -> (b: Buttons<
        A,
        B,
        C,
    >)
        ensures
            b.button_a == button_a,
            b.button_b == button_b,
            b.button_c == button_c,
    {
        Buttons { button_a, button_b, button_c }
    }

    /// Releases the underlying buttons.
    pub fn free(self) -> (parts: (Button<A>, Button<B>, Button<C>))
        ensures
            parts.0 == self.button_a,
            parts.1 == self.button_b,
            parts.2 == self.button_c,
    {
        (self.button_a, self.button_b, self.button_c)
    }

    /// Blocks until one complete sample round reads every line released, and
    /// a later round reads at least one line pressed: the wait returns only
    /// once its final round shows a press, and an earlier round of the same
    /// call read all three released, so a press held over from before the
    /// call cannot satisfy the wait.
    pub fn wait_for_press(&mut self)
        requires
            press_ahead_rounds(
                old(self).button_a.upcoming(),
                old(self).button_b.upcoming(),
                old(self).button_c.upcoming(),
            ),
        ensures
            ({
                let oa = old(self).button_a.observed();
                let ob = old(self).button_b.observed();
                let oc = old(self).button_c.observed();
                let na = final(self).button_a.observed();
                let nb = final(self).button_b.observed();
                let nc = final(self).button_c.observed();
                &&& na.len() >= oa.len() + 2
                &&& na.len() - oa.len() == nb.len() - ob.len()
                &&& na.len() - oa.len() == nc.len() - oc.len()
                &&& na.take(oa.len() as int) == oa
                &&& nb.take(ob.len() as int) == ob
                &&& nc.take(oc.len() as int) == oc
                &&& exists|j: int| #![trigger na[j]]
                    oa.len() <= j < na.len() - 1 && na[j] == false && nb[j - oa.len()
                        + ob.len()] == false && nc[j - oa.len() + oc.len()] == false
                &&& (na.last() || nb.last() || nc.last())
            }),
    {
        let ghost ua = self.button_a.upcoming();
        let ghost ub = self.button_b.upcoming();
        let ghost uc = self.button_c.upcoming();
        let ghost na0 = self.button_a.observed().len();
        let ghost nb0 = self.button_b.observed().len();
        let ghost nc0 = self.button_c.observed().len();
        let ghost (wi, wj) = choose|i: int, j: int|
            0 <= i < j && round_released(ua, ub, uc, i) && round_pressed(ua, ub, uc, j);
        let ghost mut t: int = 0;
        loop
            invariant_except_break
                t <= wi,
            invariant
                0 <= t,
                wi < wj,
                round_released(ua, ub, uc, wi),
                round_pressed(ua, ub, uc, wj),
                self.button_a.observed().len() == na0 + t,
                self.button_b.observed().len() == nb0 + t,
                self.button_c.observed().len() == nc0 + t,
                self.button_a.observed().take(na0 as int) == old(self).button_a.observed(),
                self.button_b.observed().take(nb0 as int) == old(self).button_b.observed(),
                self.button_c.observed().take(nc0 as int) == old(self).button_c.observed(),
                self.button_a.upcoming() == skip_clip(ua, t),
                self.button_b.upcoming() == skip_clip(ub, t),
                self.button_c.upcoming() == skip_clip(uc, t),
            ensures
                1 <= t <= wi + 1,
                self.button_a.observed().len() == na0 + t,
                self.button_b.observed().len() == nb0 + t,
                self.button_c.observed().len() == nc0 + t,
                self.button_a.observed().take(na0 as int) == old(self).button_a.observed(),
                self.button_b.observed().take(nb0 as int) == old(self).button_b.observed(),
                self.button_c.observed().take(nc0 as int) == old(self).button_c.observed(),
                self.button_a.upcoming() == skip_clip(ua, t),
                self.button_b.upcoming() == skip_clip(ub, t),
                self.button_c.upcoming() == skip_clip(uc, t),
                self.button_a.observed().last() == false,
                self.button_b.observed().last() == false,
                self.button_c.observed().last() == false,
            decreases wi - t,
        {
            let ghost ba = self.button_a.upcoming();
            let ghost bb = self.button_b.upcoming();
            let ghost bc = self.button_c.upcoming();
            let a = self.button_a.pin.read_pressed();
            let b = self.button_b.pin.read_pressed();
            let c = self.button_c.pin.read_pressed();
            proof {
                t = t + 1;
                assert(reading_at(ba, 0) == reading_at(ua, t - 1));
                assert(reading_at(bb, 0) == reading_at(ub, t - 1));
                assert(reading_at(bc, 0) == reading_at(uc, t - 1));
                assert(skip_clip(ba, 1) =~= skip_clip(ua, t));
                assert(skip_clip(bb, 1) =~= skip_clip(ub, t));
                assert(skip_clip(bc, 1) =~= skip_clip(uc, t));
                assert(self.button_a.observed().take(na0 as int)
                    =~= self.button_a.observed().drop_last().take(na0 as int));
                assert(self.button_b.observed().take(nb0 as int)
                    =~= self.button_b.observed().drop_last().take(nb0 as int));
                assert(self.button_c.observed().take(nc0 as int)
                    =~= self.button_c.observed().drop_last().take(nc0 as int));
            }
            if !a && !b && !c {
                break ;
            }
        }
        let ghost rel = t - 1;
        proof {
            assert(t <= wj);
        }
        loop
            invariant_except_break
                t <= wj,
            invariant
                1 <= t,
                wi < wj,
                round_released(ua, ub, uc, wi),
                round_pressed(ua, ub, uc, wj),
                0 <= rel < t,
                self.button_a.observed().len() == na0 + t,
                self.button_b.observed().len() == nb0 + t,
                self.button_c.observed().len() == nc0 + t,
                self.button_a.observed().take(na0 as int) == old(self).button_a.observed(),
                self.button_b.observed().take(nb0 as int) == old(self).button_b.observed(),
                self.button_c.observed().take(nc0 as int) == old(self).button_c.observed(),
                self.button_a.upcoming() == skip_clip(ua, t),
                self.button_b.upcoming() == skip_clip(ub, t),
                self.button_c.upcoming() == skip_clip(uc, t),
                self.button_a.observed()[na0 + rel] == false,
                self.button_b.observed()[nb0 + rel] == false,
                self.button_c.observed()[nc0 + rel] == false,
            ensures
                0 <= rel < t - 1,
                self.button_a.observed().len() == na0 + t,
                self.button_b.observed().len() == nb0 + t,
                self.button_c.observed().len() == nc0 + t,
                self.button_a.observed().take(na0 as int) == old(self).button_a.observed(),
                self.button_b.observed().take(nb0 as int) == old(self).button_b.observed(),
                self.button_c.observed().take(nc0 as int) == old(self).button_c.observed(),
                self.button_a.observed()[na0 + rel] == false,
                self.button_b.observed()[nb0 + rel] == false,
                self.button_c.observed()[nc0 + rel] == false,
                self.button_a.observed().last() || self.button_b.observed().last()
                    || self.button_c.observed().last(),
            decreases wj - t,
        {
            let ghost ba = self.button_a.upcoming();
            let ghost bb = self.button_b.upcoming();
            let ghost bc = self.button_c.upcoming();
            let a = self.button_a.pin.read_pressed();
            let b = self.button_b.pin.read_pressed();
            let c = self.button_c.pin.read_pressed();
            proof {
                t = t + 1;
                assert(reading_at(ba, 0) == reading_at(ua, t - 1));
                assert(reading_at(bb, 0) == reading_at(ub, t - 1));
                assert(reading_at(bc, 0) == reading_at(uc, t - 1));
                assert(skip_clip(ba, 1) =~= skip_clip(ua, t));
                assert(skip_clip(bb, 1) =~= skip_clip(ub, t));
                assert(skip_clip(bc, 1) =~= skip_clip(uc, t));
                assert(self.button_a.observed().take(na0 as int)
                    =~= self.button_a.observed().drop_last().take(na0 as int));
                assert(self.button_b.observed().take(nb0 as int)
                    =~= self.button_b.observed().drop_last().take(nb0 as int));
                assert(self.button_c.observed().take(nc0 as int)
                    =~= self.button_c.observed().drop_last().take(nc0 as int));
                assert(self.button_a.observed()[na0 + rel]
                    == self.button_a.observed().drop_last()[na0 + rel]);
                assert(self.button_b.observed()[nb0 + rel]
                    == self.button_b.observed().drop_last()[nb0 + rel]);
                assert(self.button_c.observed()[nc0 + rel]
                    == self.button_c.observed().drop_last()[nc0 + rel]);
            }
            if a || b || c {
                break ;
            }
        }
    }
}

impl<A: ButtonPin, B: ButtonPin, C: ButtonPin> Input for Buttons<A, B, C> {
    open spec fn press_ahead(&self) -> bool {
        press_ahead_rounds(
            self.button_a.upcoming(),
            self.button_b.upcoming(),
            self.button_c.upcoming(),
        )
    }

    fn wait_for_button(&mut self) {
        self.wait_for_press();
    }
}

// ---------------------------------------------------------------------------
// The event-driven wait, as explicit per-source state
// ---------------------------------------------------------------------------
/// Whether one edge-interrupt source is armed. The underlying sensing
/// primitive has no automatic cancel-on-drop, so disarming is an explicit
/// operation of the resolving caller.
#[derive(Clone, Copy, PartialEq, Eq, Structural, Debug)]
pub enum ArmState {
    Armed,
    Disarmed,
}

/// The three fixed physical buttons.
#[derive(Clone, Copy, PartialEq, Eq, Structural, Debug)]
pub enum ButtonId {
    A,
    B,
    C,
}

/// The event-driven variant of the wait, as a state machine: all three edge
/// interrupts are armed at once, the wait suspends until the first fires,
/// and the resolving caller then explicitly disarms the remaining two. The
/// surrounding runtime performs the actual arming, suspension and firing and
/// reports the winning source to [`EdgeWaiter::resolve`].
pub struct EdgeWaiter {
    a: ArmState,
    b: ArmState,
    c: ArmState,
}

impl EdgeWaiter {
    pub closed spec fn spec_state(&self, id: ButtonId) -> ArmState {
        match id {
            ButtonId::A => self.a,
            ButtonId::B => self.b,
            ButtonId::C => self.c,
        }
    }

    /// Every source disarmed: nothing is pending.
    pub open spec fn all_disarmed(&self) -> bool {
        forall|id: ButtonId| self.spec_state(id) == ArmState::Disarmed
    }

    /// Arms all three sources simultaneously.
    pub fn arm_all() -> (w: EdgeWaiter)
        ensures
            forall|id: ButtonId| w.spec_state(id) == ArmState::Armed,
    {
        EdgeWaiter { a: ArmState::Armed, b: ArmState::Armed, c: ArmState::Armed }
    }

    /// Whether a source still has a wait pending.
    pub fn is_pending(&self, id: ButtonId) -> (p: bool)
        ensures
            p == (self.spec_state(id) == ArmState::Armed),
    {
        let s = match id {
            ButtonId::A => self.a,
            ButtonId::B => self.b,
            ButtonId::C => self.c,
        };
        match s {
            ArmState::Armed => true,
            ArmState::Disarmed => false,
        }
    }

    /// Resolves the race once the runtime reports the first source to fire:
    /// the winner's wait has completed, and the two losers are explicitly
    /// disarmed, so that no stray wait stays pending.
    pub fn resolve(&mut self, winner: ButtonId) -> (won: ButtonId)
        requires
            old(self).spec_state(winner) == ArmState::Armed,
        ensures
            won == winner,
            final(self).all_disarmed(),
    {
        self.a = ArmState::Disarmed;
        self.b = ArmState::Disarmed;
        self.c = ArmState::Disarmed;
        winner
    }
}

} // verus!
