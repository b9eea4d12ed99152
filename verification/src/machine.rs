//! The full machine: a plugboard, three rotating wheels and a reflector
//! composed into one double-pass signal path, with odometer-style stepping.
//!
//! Every keystroke on a letter first steps the rotor assembly — the right
//! wheel always, the middle and left wheels when the wheel before them
//! signals a turnover — and then routes the letter's position through
//! plugboard, right, middle, left and reflector, and back out in reverse
//! order. Characters outside the alphabet pass through unchanged and step
//! nothing.

use vstd::prelude::*;
use crate::enigma::Enigma;
use crate::enigma::EnigmaWheel;
use crate::letters::index_letter;
use crate::letters::is_letter;
use crate::letters::letter_at;
use crate::letters::letter_index;
use crate::letters::letter_index_of;
use crate::wheel::WheelModel;
use crate::wheel::initial_wheel;
use crate::wheel::left_to_right_pos;
use crate::wheel::lemma_position_range;
use crate::wheel::lemma_position_round_trip;
use crate::wheel::lemma_reflection_involution;
use crate::wheel::positions_view;
use crate::wheel::right_to_left_pos;
use crate::wiring::involutive_wiring;
use crate::wiring::valid_wiring_text;

verus! {

/// The abstract state of a machine: five wheels with fixed structural roles.
#[verifier::ext_equal]
pub ghost struct MachineModel {
    /// Applied first and last; never steps.
    pub plugboard: WheelModel,
    /// The fast wheel: steps on every letter.
    pub right: WheelModel,
    /// Steps when the right wheel signals a turnover.
    pub middle: WheelModel,
    /// Steps when the middle wheel, having stepped, signals a turnover.
    pub left: WheelModel,
    /// Turns the signal back at the midpoint of the path; never steps.
    pub reflector: WheelModel,
}

impl MachineModel {
    /// A well-formed machine: five well-formed wheels, with the plugboard
    /// and the reflector standing still at offset zero.
    pub open spec fn wf(self) -> bool {
        &&& self.plugboard.wf()
        &&& self.right.wf()
        &&& self.middle.wf()
        &&& self.left.wf()
        &&& self.reflector.wf()
        &&& self.plugboard.rotor_position == 0
        &&& self.plugboard.ring_setting == 0
        &&& self.reflector.rotor_position == 0
        &&& self.reflector.ring_setting == 0
    }

    /// One keystroke's stepping: the right wheel always steps; its turnover
    /// signal steps the middle wheel, whose own signal steps the left wheel.
    pub open spec fn stepped(self) -> MachineModel {
        let right = self.right.stepped();
        if right.signals() {
            let middle = self.middle.stepped();
            if middle.signals() {
                MachineModel { right, middle, left: self.left.stepped(), ..self }
            } else {
                MachineModel { right, middle, ..self }
            }
        } else {
            MachineModel { right, ..self }
        }
    }
}

/// The double-pass signal path at the machine's current rotor positions, on
/// a position in `[0, 26)`: in through plugboard, right, middle and left
/// wheels to the reflector, then back out through left, middle, right and
/// plugboard.
#[verifier::opaque]
pub open spec fn route_position(m: MachineModel, p: int) -> int {
    let a = right_to_left_pos(m.plugboard.wiring, m.plugboard.rotor_position, p);
    let b = right_to_left_pos(m.right.wiring, m.right.rotor_position, a);
    let c = right_to_left_pos(m.middle.wiring, m.middle.rotor_position, b);
    let d = right_to_left_pos(m.left.wiring, m.left.rotor_position, c);
    let e = right_to_left_pos(m.reflector.wiring, m.reflector.rotor_position, d);
    let f = left_to_right_pos(m.left.wiring, m.left.rotor_position, e);
    let g = left_to_right_pos(m.middle.wiring, m.middle.rotor_position, f);
    let h = left_to_right_pos(m.right.wiring, m.right.rotor_position, g);
    left_to_right_pos(m.plugboard.wiring, m.plugboard.rotor_position, h)
}

/// What the machine, already stepped for the keystroke, makes of one
/// character: a letter's value runs mod 26 through the whole path; anything
/// else passes unchanged.
pub open spec fn machine_char(m: MachineModel, c: char) -> char {
    if is_letter(c) {
        index_letter((route_position(m, (letter_index(c) + 1) % 26) + 25) % 26)
    } else {
        c
    }
}

/// The stepping one input character causes: only letters move the rotors.
pub open spec fn step_for(m: MachineModel, c: char) -> MachineModel {
    if is_letter(c) {
        m.stepped()
    } else {
        m
    }
}

/// The machine state left behind after transforming a text.
pub open spec fn machine_after(m: MachineModel, s: Seq<char>) -> MachineModel
    decreases s.len(),
{
    if s.len() == 0 {
        m
    } else {
        machine_after(step_for(m, s[0]), s.drop_first())
    }
}

/// The text the machine produces for an input text.
pub open spec fn transform_chars(m: MachineModel, s: Seq<char>) -> Seq<char>
    decreases s.len(),
{
    if s.len() == 0 {
        Seq::empty()
    } else {
        seq![machine_char(step_for(m, s[0]), s[0])] + transform_chars(
            step_for(m, s[0]),
            s.drop_first(),
        )
    }
}

/// Transforming one more character extends the output by one character and
/// steps the machine once more.
proof fn lemma_transform_snoc(m: MachineModel, s: Seq<char>, c: char)
    ensures
        machine_after(m, s.push(c)) == step_for(machine_after(m, s), c),
        transform_chars(m, s.push(c)) == transform_chars(m, s).push(
            machine_char(step_for(machine_after(m, s), c), c),
        ),
    decreases s.len(),
{
    if s.len() == 0 {
        assert(s.push(c)[0] == c);
        assert(s.push(c).drop_first() =~= Seq::<char>::empty());
        assert(machine_after(m, s) == m);
        assert(transform_chars(m, s) == Seq::<char>::empty());
        assert(machine_after(step_for(m, c), Seq::<char>::empty()) == step_for(m, c));
        assert(transform_chars(step_for(m, c), Seq::<char>::empty()) == Seq::<char>::empty());
        assert(machine_after(m, s.push(c)) == machine_after(
            step_for(m, c),
            s.push(c).drop_first(),
        ));
        assert(transform_chars(m, s.push(c)) =~= transform_chars(m, s).push(
            machine_char(step_for(machine_after(m, s), c), c),
        ));
    } else {
        let m1 = step_for(m, s[0]);
        assert(s.push(c)[0] == s[0]);
        assert(s.push(c).drop_first() =~= s.drop_first().push(c));
        lemma_transform_snoc(m1, s.drop_first(), c);
        assert(transform_chars(m, s.push(c)) =~= transform_chars(m, s).push(
            machine_char(step_for(machine_after(m, s), c), c),
        ));
    }
}

/// The route of a signal through a well-formed machine stays in `[0, 26)`,
/// and — the reflector's wiring being an involution — routing a signal's
/// own image returns the signal.
proof fn lemma_route_involution(m: MachineModel, p: int)
    requires
        m.wf(),
        involutive_wiring(m.reflector.wiring),
        0 <= p < 26,
    ensures
        0 <= route_position(m, p) < 26,
        route_position(m, route_position(m, p)) == p,
{
    reveal(route_position);
    let a = right_to_left_pos(m.plugboard.wiring, m.plugboard.rotor_position, p);
    lemma_position_range(m.plugboard.wiring, m.plugboard.rotor_position, p);
    let b = right_to_left_pos(m.right.wiring, m.right.rotor_position, a);
    lemma_position_range(m.right.wiring, m.right.rotor_position, a);
    let c = right_to_left_pos(m.middle.wiring, m.middle.rotor_position, b);
    lemma_position_range(m.middle.wiring, m.middle.rotor_position, b);
    let d = right_to_left_pos(m.left.wiring, m.left.rotor_position, c);
    lemma_position_range(m.left.wiring, m.left.rotor_position, c);
    let e = right_to_left_pos(m.reflector.wiring, m.reflector.rotor_position, d);
    lemma_reflection_involution(m.reflector.wiring, d);
    let f = left_to_right_pos(m.left.wiring, m.left.rotor_position, e);
    lemma_position_range(m.left.wiring, m.left.rotor_position, e);
    let g = left_to_right_pos(m.middle.wiring, m.middle.rotor_position, f);
    lemma_position_range(m.middle.wiring, m.middle.rotor_position, f);
    let h = left_to_right_pos(m.right.wiring, m.right.rotor_position, g);
    lemma_position_range(m.right.wiring, m.right.rotor_position, g);
    let res = left_to_right_pos(m.plugboard.wiring, m.plugboard.rotor_position, h);
    lemma_position_range(m.plugboard.wiring, m.plugboard.rotor_position, h);
    assert(route_position(m, p) == res);
    // the return pass unwinds the forward pass stage by stage
    lemma_position_round_trip(m.plugboard.wiring, m.plugboard.rotor_position, h);
    assert(right_to_left_pos(m.plugboard.wiring, m.plugboard.rotor_position, res) == h);
    lemma_position_round_trip(m.right.wiring, m.right.rotor_position, g);
    assert(right_to_left_pos(m.right.wiring, m.right.rotor_position, h) == g);
    lemma_position_round_trip(m.middle.wiring, m.middle.rotor_position, f);
    assert(right_to_left_pos(m.middle.wiring, m.middle.rotor_position, g) == f);
    lemma_position_round_trip(m.left.wiring, m.left.rotor_position, e);
    assert(right_to_left_pos(m.left.wiring, m.left.rotor_position, f) == e);
    assert(right_to_left_pos(m.reflector.wiring, m.reflector.rotor_position, e) == d);
    lemma_position_round_trip(m.left.wiring, m.left.rotor_position, c);
    assert(left_to_right_pos(m.left.wiring, m.left.rotor_position, d) == c);
    lemma_position_round_trip(m.middle.wiring, m.middle.rotor_position, b);
    assert(left_to_right_pos(m.middle.wiring, m.middle.rotor_position, c) == b);
    lemma_position_round_trip(m.right.wiring, m.right.rotor_position, a);
    assert(left_to_right_pos(m.right.wiring, m.right.rotor_position, b) == a);
    lemma_position_round_trip(m.plugboard.wiring, m.plugboard.rotor_position, p);
    assert(left_to_right_pos(m.plugboard.wiring, m.plugboard.rotor_position, a) == p);
    assert(route_position(m, res) == p);
}

/// What the machine makes of a letter is a letter, of anything else the
/// character itself; and — the reflector's wiring being an involution — the
/// machine's action on one character at one state is its own inverse.
#[verifier::rlimit(50)]
proof fn lemma_machine_char_involution(m: MachineModel, c: char)
    requires
        m.wf(),
        involutive_wiring(m.reflector.wiring),
    ensures
        is_letter(machine_char(m, c)) == is_letter(c),
        machine_char(m, machine_char(m, c)) == c,
{
    if is_letter(c) {
        let i = letter_index(c);
        let p0 = (i + 1) % 26;
        lemma_route_involution(m, p0);
        let r1 = route_position(m, p0);
        let o1 = (r1 + 25) % 26;
        crate::letters::lemma_index_letter(o1);
        assert(machine_char(m, c) == index_letter(o1));
        assert((o1 + 1) % 26 == r1);
        assert(route_position(m, r1) == p0);
        assert((p0 + 25) % 26 == i);
        crate::letters::lemma_index_letter((p0 + 25) % 26);
        crate::letters::lemma_letter_round_trip(c);
    }
}

/// Stepping keeps a machine well formed and leaves the reflector alone.
proof fn lemma_stepped_wf(m: MachineModel)
    requires
        m.wf(),
    ensures
        m.stepped().wf(),
        m.stepped().reflector == m.reflector,
        m.stepped().plugboard == m.plugboard,
{
}

/// Law: transforming a machine's own output, the rotor positions having
/// been reset to the same starting values, returns the original text — for
/// any text, provided the reflector's wiring is an involution.
pub proof fn lemma_transform_self_inverse(m: MachineModel, text: Seq<char>)
    requires
        m.wf(),
        involutive_wiring(m.reflector.wiring),
    ensures
        transform_chars(m, transform_chars(m, text)) == text,
    decreases text.len(),
{
    let t = transform_chars(m, text);
    if text.len() == 0 {
        assert(t =~= Seq::<char>::empty());
        assert(transform_chars(m, t) =~= text);
    } else {
        let c = text[0];
        let m1 = step_for(m, c);
        lemma_stepped_wf(m);
        lemma_machine_char_involution(m1, c);
        let c1 = machine_char(m1, c);
        assert(t == seq![c1] + transform_chars(m1, text.drop_first()));
        assert(t[0] == c1);
        assert(t.drop_first() =~= transform_chars(m1, text.drop_first()));
        assert(step_for(m, c1) == m1);
        assert(transform_chars(m, t) == seq![machine_char(m1, c1)] + transform_chars(
            m1,
            t.drop_first(),
        ));
        lemma_transform_self_inverse(m1, text.drop_first());
        assert(machine_char(m1, c1) == c);
        assert(transform_chars(m, t) =~= text);
    }
}

/// The output of a transformation is exactly as long as its input.
pub proof fn lemma_transform_len(m: MachineModel, s: Seq<char>)
    ensures
        transform_chars(m, s).len() == s.len(),
    decreases s.len(),
{
    if s.len() > 0 {
        lemma_transform_len(step_for(m, s[0]), s.drop_first());
    }
}

/// Law: a character outside the alphabet passes through any configuration
/// unchanged, standing at its original position in the output.
pub proof fn lemma_pass_through(m: MachineModel, s: Seq<char>, i: int)
    requires
        0 <= i < s.len(),
        !is_letter(s[i]),
    ensures
        transform_chars(m, s).len() == s.len(),
        transform_chars(m, s)[i] == s[i],
    decreases s.len(),
{
    lemma_transform_len(m, s);
    let m1 = step_for(m, s[0]);
    lemma_transform_len(m1, s.drop_first());
    if i == 0 {
        assert(transform_chars(m, s)[0] == machine_char(m1, s[0]));
    } else {
        lemma_pass_through(m1, s.drop_first(), i - 1);
        assert(transform_chars(m, s)[i] == transform_chars(m1, s.drop_first())[i - 1]);
    }
}

/// The machine that a session starts from: plugboard and reflector at
/// offset zero, the three rotating wheels at their given offsets and ring
/// settings, and no turnover triggers yet.
pub open spec fn initial_machine(
    pb: Seq<char>,
    rw: Seq<char>,
    rw_offset: int,
    rw_setting: int,
    mw: Seq<char>,
    mw_offset: int,
    mw_setting: int,
    lw: Seq<char>,
    lw_offset: int,
    lw_setting: int,
    rf: Seq<char>,
) -> MachineModel {
    MachineModel {
        plugboard: initial_wheel(pb, 0, 0),
        right: initial_wheel(rw, rw_offset, rw_setting),
        middle: initial_wheel(mw, mw_offset, mw_setting),
        left: initial_wheel(lw, lw_offset, lw_setting),
        reflector: initial_wheel(rf, 0, 0),
    }
}

/// A complete machine: plugboard, right, middle and left wheels, and
/// reflector.
pub struct EnigmaMachine {
    plugboard: EnigmaWheel,
    right_wheel: EnigmaWheel,
    middle_wheel: EnigmaWheel,
    left_wheel: EnigmaWheel,
    reflector: EnigmaWheel,
}

impl View for EnigmaMachine {
    type V = MachineModel;

    closed spec fn view(&self) -> MachineModel {
        MachineModel {
            plugboard: self.plugboard@,
            right: self.right_wheel@,
            middle: self.middle_wheel@,
            left: self.left_wheel@,
            reflector: self.reflector@,
        }
    }
}

impl EnigmaMachine {
    /// Builds the five wheels from their wiring lines; the plugboard and the
    /// reflector always stand at offset zero and ring setting zero.
    pub fn new(
        pb_cipher: String,
        rw_cipher: String,
        rw_offset: u16,
        rw_setting: u16,
        mw_cipher: String,
        mw_offset: u16,
        mw_setting: u16,
        lw_cipher: String,
        lw_offset: u16,
        lw_setting: u16,
        rf_cipher: String,
    ) -> (m: EnigmaMachine)
        requires
            valid_wiring_text(pb_cipher@),
            valid_wiring_text(rw_cipher@),
            valid_wiring_text(mw_cipher@),
            valid_wiring_text(lw_cipher@),
            valid_wiring_text(rf_cipher@),
        ensures
            m@ == initial_machine(
                pb_cipher@,
                rw_cipher@,
                rw_offset as int,
                rw_setting as int,
                mw_cipher@,
                mw_offset as int,
                mw_setting as int,
                lw_cipher@,
                lw_offset as int,
                lw_setting as int,
                rf_cipher@,
            ),
            m@.wf(),
    {
        let m = EnigmaMachine {
            plugboard: EnigmaWheel::new(pb_cipher, 0, 0),
            right_wheel: EnigmaWheel::new(rw_cipher, rw_offset, rw_setting),
            middle_wheel: EnigmaWheel::new(mw_cipher, mw_offset, mw_setting),
            left_wheel: EnigmaWheel::new(lw_cipher, lw_offset, lw_setting),
            reflector: EnigmaWheel::new(rf_cipher, 0, 0),
        };
        proof {
            assert(m@ =~= initial_machine(
                pb_cipher@,
                rw_cipher@,
                rw_offset as int,
                rw_setting as int,
                mw_cipher@,
                mw_offset as int,
                mw_setting as int,
                lw_cipher@,
                lw_offset as int,
                lw_setting as int,
                rf_cipher@,
            ));
        }
        m
    }

    /// Assigns turnover trigger positions to the three rotating wheels.
    pub fn set_triggers(
        &mut self,
        rw_triggers: Vec<u16>,
        mw_triggers: Vec<u16>,
        lw_triggers: Vec<u16>,
    )
        ensures
            final(self)@ == (MachineModel {
                right: (WheelModel { triggers: positions_view(rw_triggers@), ..old(self)@.right }),
                middle: (WheelModel {
                    triggers: positions_view(mw_triggers@),
                    ..old(self)@.middle
                }),
                left: (WheelModel { triggers: positions_view(lw_triggers@), ..old(self)@.left }),
                ..old(self)@
            }),
    {
        self.right_wheel.set_triggers(rw_triggers);
        self.middle_wheel.set_triggers(mw_triggers);
        self.left_wheel.set_triggers(lw_triggers);
    }

    /// Resets the rotor positions of the three rotating wheels — wirings,
    /// ring settings and triggers stay — so that the same configuration can
    /// run against a new message.
    pub fn set_rotor_positions(&mut self, right: u16, middle: u16, left: u16)
        ensures
            final(self)@ == (MachineModel {
                right: (WheelModel { rotor_position: right as int % 26, ..old(self)@.right }),
                middle: (WheelModel { rotor_position: middle as int % 26, ..old(self)@.middle }),
                left: (WheelModel { rotor_position: left as int % 26, ..old(self)@.left }),
                ..old(self)@
            }),
    {
        self.right_wheel.set_rotor_position(right);
        self.middle_wheel.set_rotor_position(middle);
        self.left_wheel.set_rotor_position(left);
    }

    /// Steps the rotor assembly for one keystroke: the right wheel always,
    /// the middle and left wheels on the carry signals before them.
    fn step_assembly(&mut self)
        requires
            old(self)@.wf(),
        ensures
            final(self)@ == old(self)@.stepped(),
            final(self)@.wf(),
    {
        if self.right_wheel.rotate() {
            if self.middle_wheel.rotate() {
                self.left_wheel.rotate();
            }
        }
        proof {
            assert(self@ =~= old(self)@.stepped());
        }
    }

    /// Routes the letter with the given alphabet index through the signal
    /// path at the current rotor positions.
    #[verifier::rlimit(50)]
    fn route_letter(&self, ix: u8) -> (out: char)
        requires
            self@.wf(),
            ix < 26,
        ensures
            out == index_letter((route_position(self@, (ix as int + 1) % 26) + 25) % 26),
    {
        let code = ((ix as u16) + 1) % 26;
        assert(code as int % 26 == code as int);
        let a = self.plugboard.right_to_left(code);
        assert(a as int % 26 == a as int);
        let b = self.right_wheel.right_to_left(a);
        assert(b as int % 26 == b as int);
        let d = self.middle_wheel.right_to_left(b);
        assert(d as int % 26 == d as int);
        let e = self.left_wheel.right_to_left(d);
        assert(e as int % 26 == e as int);
        let f = self.reflector.right_to_left(e);
        assert(f as int % 26 == f as int);
        let g = self.left_wheel.left_to_right(f);
        assert(g as int % 26 == g as int);
        let h = self.middle_wheel.left_to_right(g);
        assert(h as int % 26 == h as int);
        let o = self.right_wheel.left_to_right(h);
        assert(o as int % 26 == o as int);
        let q = self.plugboard.left_to_right(o);
        proof {
            reveal(route_position);
        }
        assert(q as int == route_position(self@, (ix as int + 1) % 26));
        letter_at(((q + 25) % 26) as u8)
    }

    /// Transforms a message one character at a time: letters step the rotor
    /// assembly and run through the signal path, everything else passes
    /// through unchanged. Applying the same transformation again from the
    /// same starting positions recovers the message.
    pub fn transform_message(&mut self, message: String) -> (r: String)
        requires
            old(self)@.wf(),
        ensures
            final(self)@ == machine_after(old(self)@, message@),
            final(self)@.wf(),
            r@ == transform_chars(old(self)@, message@),
    {
        let n = message.as_str().unicode_len();
        let mut r = String::new();
        let mut i: usize = 0;
        while i < n
            invariant
                i <= n,
                n == message@.len(),
                old(self)@.wf(),
                self@.wf(),
                self@ == machine_after(old(self)@, message@.subrange(0, i as int)),
                r@ == transform_chars(old(self)@, message@.subrange(0, i as int)),
            decreases n - i,
        {
            let ghost pre = self@;
            let ghost done = message@.subrange(0, i as int);
            let c = message.as_str().get_char(i);
            match letter_index_of(c) {
                Some(ix) => {
                    self.step_assembly();
                    let out = self.route_letter(ix);
                    proof {
                        assert(out == machine_char(self@, message@[i as int]));
                    }
                    r.push(out);
                },
                None => {
                    r.push(c);
                },
            }
            proof {
                assert(message@.subrange(0, i + 1 as int) =~= done.push(message@[i as int]));
                lemma_transform_snoc(old(self)@, done, message@[i as int]);
            }
            i += 1;
        }
        proof {
            assert(message@.subrange(0, n as int) =~= message@);
        }
        r
    }
}

} // verus!
