//! Joypad state. Each port keeps one bit per Mega Drive button; the core polls
//! them by libretro joypad id.
//!
//! The core's convention is `B` = MD A, `A` = MD C, `Y` = MD X, `X` = MD Y,
//! `L` = MD Z (with `R` as an alias) and `SELECT` = MD MODE.

use crate::text::{ascii_lower, lower, text_eq};
use vstd::prelude::*;

verus! {

/// Mega Drive pad buttons.
#[derive(Debug, Clone, Copy, PartialEq, Eq, Hash, Structural)]
pub enum Button {
    Up,
    Down,
    Left,
    Right,
    A,
    B,
    C,
    Start,
    X,
    Y,
    Z,
    Mode,
}

impl Button {
    /// All twelve buttons, in bit order.
    pub const ALL: [Button; 12] = [
        Button::Up,
        Button::Down,
        Button::Left,
        Button::Right,
        Button::A,
        Button::B,
        Button::C,
        Button::Start,
        Button::X,
        Button::Y,
        Button::Z,
        Button::Mode,
    ];

    /// Position of the button in bit order.
    pub open spec fn position(self) -> int {
        match self {
            Button::Up => 0,
            Button::Down => 1,
            Button::Left => 2,
            Button::Right => 3,
            Button::A => 4,
            Button::B => 5,
            Button::C => 6,
            Button::Start => 7,
            Button::X => 8,
            Button::Y => 9,
            Button::Z => 10,
            Button::Mode => 11,
        }
    }

    /// The button at a position in bit order.
    pub open spec fn at(i: int) -> Button {
        if i == 0 {
            Button::Up
        } else if i == 1 {
            Button::Down
        } else if i == 2 {
            Button::Left
        } else if i == 3 {
            Button::Right
        } else if i == 4 {
            Button::A
        } else if i == 5 {
            Button::B
        } else if i == 6 {
            Button::C
        } else if i == 7 {
            Button::Start
        } else if i == 8 {
            Button::X
        } else if i == 9 {
            Button::Y
        } else if i == 10 {
            Button::Z
        } else {
            Button::Mode
        }
    }

    /// The button's mask: two to the power of its position.
    pub open spec fn mask(self) -> u16 {
        match self {
            Button::Up => 1,
            Button::Down => 2,
            Button::Left => 4,
            Button::Right => 8,
            Button::A => 16,
            Button::B => 32,
            Button::C => 64,
            Button::Start => 128,
            Button::X => 256,
            Button::Y => 512,
            Button::Z => 1024,
            Button::Mode => 2048,
        }
    }

    /// The button's public name.
    pub open spec fn label(self) -> Seq<char> {
        match self {
            Button::Up => "up"@,
            Button::Down => "down"@,
            Button::Left => "left"@,
            Button::Right => "right"@,
            Button::A => "a"@,
            Button::B => "b"@,
            Button::C => "c"@,
            Button::Start => "start"@,
            Button::X => "x"@,
            Button::Y => "y"@,
            Button::Z => "z"@,
            Button::Mode => "mode"@,
        }
    }

    /// The button that the core polls under a libretro joypad id.
    pub open spec fn polled(id: u32) -> Option<Button> {
        if id == 0 {
            Some(Button::A)
        } else if id == 1 {
            Some(Button::X)
        } else if id == 2 {
            Some(Button::Mode)
        } else if id == 3 {
            Some(Button::Start)
        } else if id == 4 {
            Some(Button::Up)
        } else if id == 5 {
            Some(Button::Down)
        } else if id == 6 {
            Some(Button::Left)
        } else if id == 7 {
            Some(Button::Right)
        } else if id == 8 {
            Some(Button::C)
        } else if id == 9 {
            Some(Button::Y)
        } else if id == 10 || id == 11 {
            Some(Button::Z)
        } else {
            None
        }
    }

    /// Stable bit mask inside `PortState::buttons`.
    pub fn bit(self) -> (r: u16)
        ensures
            r == self.mask(),
    {
        match self {
            Button::Up => 1,
            Button::Down => 2,
            Button::Left => 4,
            Button::Right => 8,
            Button::A => 16,
            Button::B => 32,
            Button::C => 64,
            Button::Start => 128,
            Button::X => 256,
            Button::Y => 512,
            Button::Z => 1024,
            Button::Mode => 2048,
        }
    }

    /// Maps a libretro joypad id to the button it polls; `None` outside the
    /// six-button pad.
    pub fn from_libretro_id(id: u32) -> (r: Option<Button>)
        ensures
            r == Button::polled(id),
            r == Some(Button::A) <==> id == 0,
            r == Some(Button::X) <==> id == 1,
            r == Some(Button::Mode) <==> id == 2,
            r == Some(Button::Start) <==> id == 3,
            r == Some(Button::Up) <==> id == 4,
            r == Some(Button::Down) <==> id == 5,
            r == Some(Button::Left) <==> id == 6,
            r == Some(Button::Right) <==> id == 7,
            r == Some(Button::C) <==> id == 8,
            r == Some(Button::Y) <==> id == 9,
            r == Some(Button::Z) <==> id == 10 || id == 11,
            r is None <==> id > 11,
    {
        match id {
            0 => Some(Button::A),
            1 => Some(Button::X),
            2 => Some(Button::Mode),
            3 => Some(Button::Start),
            4 => Some(Button::Up),
            5 => Some(Button::Down),
            6 => Some(Button::Left),
            7 => Some(Button::Right),
            8 => Some(Button::C),
            9 => Some(Button::Y),
            10 => Some(Button::Z),
            11 => Some(Button::Z),
            _ => None,
        }
    }

    /// Parses a button name, ignoring ASCII case.
    pub fn parse(s: &str) -> (r: Option<Button>)
        ensures
            r matches Some(b) ==> lower(s@) == b.label(),
            r is None ==> forall|b: Button| lower(s@) != #[trigger] b.label(),
    {
        let name = ascii_lower(s);
        let mut i: usize = 0;
        while i < 12
            invariant
                i <= 12,
                name@ == lower(s@),
                forall|j: int| 0 <= j < i ==> lower(s@) != (#[trigger] Button::at(j)).label(),
            decreases 12 - i,
        {
            let b = Button::nth(i);
            if text_eq(name.as_str(), b.name()) {
                return Some(b);
            }
            i += 1;
        }
        proof {
            assert forall|b: Button| lower(s@) != #[trigger] b.label() by {
                assert(Button::at(b.position()) == b);
            }
        }
        None
    }

    /// The button at position `i` of `ALL`.
    pub fn nth(i: usize) -> (r: Button)
        requires
            i < 12,
        ensures
            r == Button::at(i as int),
    {
        let all = Button::ALL;
        all[i]
    }

    /// The button's public name.
    pub fn name(self) -> (r: &'static str)
        ensures
            r@ == self.label(),
    {
        match self {
            Button::Up => "up",
            Button::Down => "down",
            Button::Left => "left",
            Button::Right => "right",
            Button::A => "a",
            Button::B => "b",
            Button::C => "c",
            Button::Start => "start",
            Button::X => "x",
            Button::Y => "y",
            Button::Z => "z",
            Button::Mode => "mode",
        }
    }
}

/// Buttons held on one port.
#[derive(Debug)]
pub struct PortState {
    pub buttons: u16,
}

impl Default for PortState {
    /// No button held.
    fn default() -> (r: Self)
        ensures
            r.buttons == 0,
    {
        PortState { buttons: 0 }
    }
}

impl PortState {
    /// Whether `b` is held.
    pub open spec fn held(self, b: Button) -> bool {
        self.buttons & b.mask() != 0
    }

    /// Whether `b` is held.
    pub fn is_pressed(&self, b: Button) -> (r: bool)
        ensures
            r == self.held(b),
    {
        (self.buttons & b.bit()) != 0
    }

    /// Holds or lets go of `b`; the other bits stay.
    pub fn set(&mut self, b: Button, pressed: bool)
        ensures
            final(self).buttons == set_bits(old(self).buttons, b, pressed),
    {
        if pressed {
            self.buttons = self.buttons | b.bit();
        } else {
            self.buttons = self.buttons & !b.bit();
        }
    }

    /// The raw bits.
    pub fn snapshot(&self) -> (r: u16)
        ensures
            r == self.buttons,
    {
        self.buttons
    }
}

/// `bits` with the mask of `b` set or cleared.
pub open spec fn set_bits(bits: u16, b: Button, pressed: bool) -> u16 {
    if pressed {
        bits | b.mask()
    } else {
        bits & !b.mask()
    }
}

/// `bits` after a list of button changes, in order.
pub open spec fn apply_all(bits: u16, updates: Seq<(Button, bool)>) -> u16
    decreases updates.len(),
{
    if updates.len() == 0 {
        bits
    } else {
        set_bits(apply_all(bits, updates.drop_last()), updates.last().0, updates.last().1)
    }
}

/// Two-port joypad state. There is one of it: its holders share it behind a lock,
/// and what a holder sees after another's change is not stated here.
#[derive(Debug)]
pub struct InputState {
    pub ports: [PortState; 2],
}

impl Default for InputState {
    /// No button held on either port.
    fn default() -> (r: Self)
        ensures
            r.bits(0) == 0,
            r.bits(1) == 0,
    {
        InputState { ports: [PortState { buttons: 0 }, PortState { buttons: 0 }] }
    }
}

impl InputState {
    /// The bits held on a port; none on a port that does not exist.
    pub open spec fn bits(self, port: u32) -> u16 {
        if port < 2 {
            self.ports@[port as int].buttons
        } else {
            0
        }
    }

    /// Whether `b` is held on a port.
    pub open spec fn held(self, port: u32, b: Button) -> bool {
        self.bits(port) & b.mask() != 0
    }

    /// What the core reads for a joypad id: 1 when there is such a port and such
    /// a button and it is held, else 0.
    pub open spec fn answer(self, port: u32, id: u32) -> i16 {
        if port < 2 && Button::polled(id) is Some && self.held(port, Button::polled(id)->0) {
            1
        } else {
            0
        }
    }

    /// Whether `after` is the state once `b` on a port was set.
    pub open spec fn set_to(self, port: u32, b: Button, pressed: bool, after: InputState) -> bool {
        forall|q: u32|
            #[trigger] after.bits(q) == if q == port && q < 2 {
                set_bits(self.bits(q), b, pressed)
            } else {
                self.bits(q)
            }
    }

    /// No button held on either port.
    pub fn new() -> (r: Self)
        ensures
            r.bits(0) == 0,
            r.bits(1) == 0,
    {
        InputState::default()
    }

    /// The state of port `idx`, when there is one.
    pub fn port(&self, idx: u32) -> (r: Option<&PortState>)
        ensures
            r is Some <==> idx < 2,
            r matches Some(p) ==> p.buttons == self.bits(idx),
    {
        if idx < 2 {
            Some(&self.ports[idx as usize])
        } else {
            None
        }
    }

    fn set(&mut self, port: u32, b: Button, pressed: bool)
        ensures
            old(self).set_to(port, b, pressed, *final(self)),
    {
        if port < 2 {
            self.ports[port as usize].set(b, pressed);
        }
    }

    /// Applies a partial list of button changes to a port. Buttons that are not
    /// listed stay; an unknown port is ignored.
    pub fn apply_partial(&mut self, port: u32, updates: &[(Button, bool)])
        ensures
            forall|q: u32|
                #[trigger] final(self).bits(q) == if q == port && q < 2 {
                    apply_all(old(self).bits(q), updates@)
                } else {
                    old(self).bits(q)
                },
    {
        let mut i: usize = 0;
        while i < updates.len()
            invariant
                i <= updates@.len(),
                forall|q: u32|
                    #[trigger] self.bits(q) == if q == port && q < 2 {
                        apply_all(old(self).bits(q), updates@.take(i as int))
                    } else {
                        old(self).bits(q)
                    },
            decreases updates@.len() - i,
        {
            proof {
                assert(updates@.take(i + 1).drop_last() =~= updates@.take(i as int));
            }
            self.set(port, updates[i].0, updates[i].1);
            i += 1;
        }
        proof {
            assert(updates@.take(updates@.len() as int) =~= updates@);
        }
    }

    /// Holds a button.
    pub fn press(&mut self, port: u32, b: Button)
        ensures
            old(self).set_to(port, b, true, *final(self)),
    {
        self.set(port, b, true);
    }

    /// Lets go of a button.
    pub fn release(&mut self, port: u32, b: Button)
        ensures
            old(self).set_to(port, b, false, *final(self)),
    {
        self.set(port, b, false);
    }

    /// Every button of a port with whether it is held, in bit order; empty for
    /// an unknown port.
    pub fn snapshot_buttons(&self, port: u32) -> (r: Vec<(&'static str, bool)>)
        ensures
            r@.len() == if port < 2 { 12int } else { 0 },
            forall|i: int|
                0 <= i < r@.len() ==> (#[trigger] r@[i]).0@ == Button::at(i).label() && r@[i].1
                    == self.held(port, Button::at(i)),
    {
        let mut out: Vec<(&'static str, bool)> = Vec::new();
        if port >= 2 {
            return out;
        }
        let bits: u16 = self.ports[port as usize].snapshot();
        let mut i: usize = 0;
        while i < 12
            invariant
                i <= 12,
                out@.len() == i,
                port < 2,
                bits == self.bits(port),
                forall|j: int|
                    0 <= j < i ==> (#[trigger] out@[j]).0@ == Button::at(j).label() && out@[j].1
                        == self.held(port, Button::at(j)),
            decreases 12 - i,
        {
            let b = Button::nth(i);
            out.push((b.name(), (bits & b.bit()) != 0));
            i += 1;
        }
        out
    }

    /// What the core reads for a joypad id: 1 when the button is held, else 0.
    pub fn read_libretro(&self, port: u32, id: u32) -> (r: i16)
        ensures
            r == self.answer(port, id),
    {
        match Button::from_libretro_id(id) {
            None => 0,
            Some(b) => match self.port(port) {
                None => 0,
                Some(p) => if p.is_pressed(b) {
                    1
                } else {
                    0
                },
            },
        }
    }
}

/// The label of a button is one of twelve distinct texts, none of which has an
/// upper-case letter.
proof fn lemma_labels()
    ensures
        forall|b: Button| lower(#[trigger] b.label()) == b.label(),
        forall|a: Button, b: Button| #[trigger] a.label() == #[trigger] b.label() ==> a == b,
{
    reveal_strlit("up");
    reveal_strlit("down");
    reveal_strlit("left");
    reveal_strlit("right");
    reveal_strlit("a");
    reveal_strlit("b");
    reveal_strlit("c");
    reveal_strlit("start");
    reveal_strlit("x");
    reveal_strlit("y");
    reveal_strlit("z");
    reveal_strlit("mode");
    assert forall|b: Button| lower(#[trigger] b.label()) == b.label() by {
        assert(lower(b.label()) =~= b.label());
    }
    assert forall|a: Button, b: Button| #[trigger] a.label() == #[trigger] b.label() implies a
        == b by {
        if a != b {
            assert(a.label().len() != b.label().len() || a.label()[0] != b.label()[0]);
        }
    }
}

/// A button's name parses back to that button and to no other.
pub proof fn law_name_parses(b: Button, other: Button)
    ensures
        lower(b.label()) == b.label(),
        b.label() == other.label() ==> b == other,
{
    lemma_labels();
}

/// Changing one button of a port changes what is held of that button alone.
pub proof fn law_set_touches_one(bits: u16, b: Button, pressed: bool, other: Button)
    ensures
        set_bits(bits, b, pressed) & b.mask() != 0 <==> pressed,
        other != b ==> (set_bits(bits, b, pressed) & other.mask() != 0 <==> bits & other.mask()
            != 0),
{
    let m: u16 = b.mask();
    let n: u16 = other.mask();
    assert(m != 0 && (other != b ==> m & n == 0u16)) by {
        assert(forall|i: u16, j: u16|
            i < 12 && j < 12 && i != j ==> #[trigger] (1u16 << i) & #[trigger] (1u16 << j) == 0u16)
            by (bit_vector);
        assert(1u16 << 0u16 == 1 && 1u16 << 1u16 == 2 && 1u16 << 2u16 == 4 && 1u16 << 3u16 == 8
            && 1u16 << 4u16 == 16 && 1u16 << 5u16 == 32 && 1u16 << 6u16 == 64 && 1u16 << 7u16
            == 128 && 1u16 << 8u16 == 256 && 1u16 << 9u16 == 512 && 1u16 << 10u16 == 1024 && 1u16
            << 11u16 == 2048) by (bit_vector);
        assert(m == 1u16 << (b.position() as u16));
        assert(n == 1u16 << (other.position() as u16));
        assert(other != b ==> other.position() != b.position());
    }
    assert((bits | m) & m == m) by (bit_vector);
    assert((bits & !m) & m == 0u16) by (bit_vector);
    assert(m & n == 0u16 ==> (bits | m) & n == bits & n && (bits & !m) & n == bits & n)
        by (bit_vector);
}

/// A button that a list of changes does not mention stays as it was.
pub proof fn law_partial_keeps_others(bits: u16, updates: Seq<(Button, bool)>, other: Button)
    requires
        forall|i: int| 0 <= i < updates.len() ==> (#[trigger] updates[i]).0 != other,
    ensures
        apply_all(bits, updates) & other.mask() != 0 <==> bits & other.mask() != 0,
    decreases updates.len(),
{
    if updates.len() > 0 {
        let rest = updates.drop_last();
        assert forall|i: int| 0 <= i < rest.len() implies (#[trigger] rest[i]).0 != other by {
            assert(rest[i] == updates[i]);
        }
        law_partial_keeps_others(bits, rest, other);
        law_set_touches_one(apply_all(bits, rest), updates.last().0, updates.last().1, other);
    }
}

/// The last mention of a button in a list of changes decides whether it is held.
pub proof fn law_last_mention_wins(
    bits: u16,
    before: Seq<(Button, bool)>,
    b: Button,
    pressed: bool,
    after: Seq<(Button, bool)>,
)
    requires
        forall|i: int| 0 <= i < after.len() ==> (#[trigger] after[i]).0 != b,
    ensures
        apply_all(bits, before.push((b, pressed)) + after) & b.mask() != 0 <==> pressed,
    decreases after.len(),
{
    let head = before.push((b, pressed));
    if after.len() == 0 {
        assert(head + after =~= head);
        assert(head.drop_last() =~= before);
        law_set_touches_one(apply_all(bits, before), b, pressed, b);
    } else {
        let all = head + after;
        let rest = after.drop_last();
        assert(all.drop_last() =~= head + rest);
        assert(all.last() == after.last());
        assert forall|i: int| 0 <= i < rest.len() implies (#[trigger] rest[i]).0 != b by {
            assert(rest[i] == after[i]);
        }
        law_last_mention_wins(bits, before, b, pressed, rest);
        law_set_touches_one(apply_all(bits, head + rest), after.last().0, after.last().1, b);
    }
}

/// What is set is what the core polls next: setting a button of a port decides
/// the answer under that button's ids on that port, and changes no other answer.
pub proof fn law_set_is_polled(
    before: InputState,
    port: u32,
    b: Button,
    pressed: bool,
    after: InputState,
    q: u32,
    id: u32,
)
    requires
        before.set_to(port, b, pressed, after),
    ensures
        q == port && q < 2 && Button::polled(id) == Some(b) ==> (after.answer(q, id) == 1
            <==> pressed),
        q != port || Button::polled(id) != Some(b) ==> after.answer(q, id) == before.answer(q, id),
{
    assert(after.bits(q) == after.bits(q));
    if let Some(other) = Button::polled(id) {
        law_set_touches_one(before.bits(q), b, pressed, other);
    }
}

/// Pressing one button of an idle pad is what the game sees, and nothing else: the
/// answer is 1 under that button's joypad ids and 0 under every other id, on that
/// port alone. No id stands for B.
pub proof fn law_press_alone(
    before: InputState,
    port: u32,
    b: Button,
    after: InputState,
    q: u32,
    id: u32,
)
    requires
        port < 2,
        before.bits(0) == 0,
        before.bits(1) == 0,
        before.set_to(port, b, true, after),
    ensures
        after.answer(q, id) == 1 <==> q == port && {
            ||| b == Button::A && id == 0
            ||| b == Button::X && id == 1
            ||| b == Button::Mode && id == 2
            ||| b == Button::Start && id == 3
            ||| b == Button::Up && id == 4
            ||| b == Button::Down && id == 5
            ||| b == Button::Left && id == 6
            ||| b == Button::Right && id == 7
            ||| b == Button::C && id == 8
            ||| b == Button::Y && id == 9
            ||| b == Button::Z && (id == 10 || id == 11)
        },
        after.answer(q, id) == 1 || after.answer(q, id) == 0,
{
    law_set_is_polled(before, port, b, true, after, q, id);
    assert(forall|m: u16| 0u16 & m == 0) by (bit_vector);
}

/// A port's raw bits are the buttons in the order up, down, left, right, A, B, C,
/// start, X, Y, Z, mode, from the lowest bit on; they are listed in that order.
pub proof fn law_bit_order(bits: u16, b: Button)
    ensures
        Button::Up.mask() == 1,
        Button::Down.mask() == 2,
        Button::Left.mask() == 4,
        Button::Right.mask() == 8,
        Button::A.mask() == 16,
        Button::B.mask() == 32,
        Button::C.mask() == 64,
        Button::Start.mask() == 128,
        Button::X.mask() == 256,
        Button::Y.mask() == 512,
        Button::Z.mask() == 1024,
        Button::Mode.mask() == 2048,
        Button::at(b.position()) == b,
        0 <= b.position() < 12,
        bits & b.mask() != 0 <==> (bits >> (b.position() as u16)) & 1 == 1,
{
    let m: u16 = b.mask();
    let p: u16 = b.position() as u16;
    assert(p == 0 && m == 1 || p == 1 && m == 2 || p == 2 && m == 4 || p == 3 && m == 8 || p == 4
        && m == 16 || p == 5 && m == 32 || p == 6 && m == 64 || p == 7 && m == 128 || p == 8 && m
        == 256 || p == 9 && m == 512 || p == 10 && m == 1024 || p == 11 && m == 2048);
    assert(bits & m != 0 <==> (bits >> p) & 1 == 1) by (bit_vector)
        requires
            p == 0 && m == 1 || p == 1 && m == 2 || p == 2 && m == 4 || p == 3 && m == 8 || p == 4
                && m == 16 || p == 5 && m == 32 || p == 6 && m == 64 || p == 7 && m == 128 || p
                == 8 && m == 256 || p == 9 && m == 512 || p == 10 && m == 1024 || p == 11 && m
                == 2048,
    ;
}

/// Every button is known under its own name.
pub proof fn law_button_names(b: Button)
    ensures
        b.label() == "up"@ <==> b == Button::Up,
        b.label() == "down"@ <==> b == Button::Down,
        b.label() == "left"@ <==> b == Button::Left,
        b.label() == "right"@ <==> b == Button::Right,
        b.label() == "a"@ <==> b == Button::A,
        b.label() == "b"@ <==> b == Button::B,
        b.label() == "c"@ <==> b == Button::C,
        b.label() == "start"@ <==> b == Button::Start,
        b.label() == "x"@ <==> b == Button::X,
        b.label() == "y"@ <==> b == Button::Y,
        b.label() == "z"@ <==> b == Button::Z,
        b.label() == "mode"@ <==> b == Button::Mode,
{
    lemma_labels();
    assert(Button::Up.label() == "up"@ && Button::Down.label() == "down"@ && Button::Left.label()
        == "left"@ && Button::Right.label() == "right"@ && Button::A.label() == "a"@
        && Button::B.label() == "b"@ && Button::C.label() == "c"@ && Button::Start.label()
        == "start"@ && Button::X.label() == "x"@ && Button::Y.label() == "y"@ && Button::Z.label()
        == "z"@ && Button::Mode.label() == "mode"@);
}

/// There are two ports: nothing is held on any other, whatever was set.
pub proof fn law_two_ports(
    before: InputState,
    port: u32,
    b: Button,
    pressed: bool,
    after: InputState,
    q: u32,
    id: u32,
)
    requires
        before.set_to(port, b, pressed, after),
        q >= 2,
    ensures
        after.answer(q, id) == 0,
        after.bits(q) == 0,
        port >= 2 ==> after.bits(0) == before.bits(0) && after.bits(1) == before.bits(1),
{
}

} // verus!
