use vstd::prelude::*;
use vstd::string::StringExecFns;

verus! {

/// An 11-bit CAN identifier (`0 ..= 0x7FF`).
#[derive(PartialEq, Eq, Clone, Copy, Debug)]
pub struct StandardId(pub(crate) u16);

/// A 29-bit CAN identifier (`0 ..= 0x1FFF_FFFF`).
#[derive(PartialEq, Eq, Clone, Copy, Debug)]
pub struct ExtendedId(pub(crate) u32);

/// A CAN identifier, either standard or extended.
#[derive(PartialEq, Eq, Clone, Copy, Debug)]
pub enum CanId {
    Standard(StandardId),
    Extended(ExtendedId),
}

/// The mathematical value of a CAN identifier: its kind and its raw number.
pub enum IdView {
    Standard(u16),
    Extended(u32),
}

impl IdView {
    /// The raw number lies in the range of its kind.
    pub open spec fn in_range(self) -> bool {
        match self {
            IdView::Standard(raw) => raw <= 0x7FF,
            IdView::Extended(raw) => raw <= 0x1FFF_FFFF,
        }
    }

    pub open spec fn is_standard(self) -> bool {
        self is Standard
    }
}

impl View for StandardId {
    type V = u16;

    closed spec fn view(&self) -> u16 {
        self.0
    }
}

impl View for ExtendedId {
    type V = u32;

    closed spec fn view(&self) -> u32 {
        self.0
    }
}

impl View for CanId {
    type V = IdView;

    open spec fn view(&self) -> IdView {
        match self {
            CanId::Standard(id) => IdView::Standard(id@),
            CanId::Extended(id) => IdView::Extended(id@),
        }
    }
}

/// The upper-case hexadecimal digit of `d`, which is below 16.
pub open spec fn hex_char(d: nat) -> char {
    if d < 10 {
        (d + 48) as char
    } else {
        (d + 55) as char
    }
}

/// The last `width` hexadecimal digits of `x`, upper case, most significant
/// first; for `x` below `16` to the `width` this is `x` padded with zeros.
pub open spec fn hex_text(x: nat, width: nat) -> Seq<char>
    decreases width,
{
    if width == 0 {
        Seq::empty()
    } else {
        hex_text(x / 16, (width - 1) as nat).push(hex_char(x % 16))
    }
}

/// `c` is one of the digits `0`-`9`, `A`-`F`.
pub open spec fn is_hex_digit(c: char) -> bool {
    ('0' as int <= c as int <= '9' as int) || ('A' as int <= c as int <= 'F' as int)
}

/// The value of a hexadecimal digit: `0`-`9` are 0 to 9, `A`-`F` are 10 to 15.
pub open spec fn hex_digit_value(c: char) -> int {
    if '0' as int <= c as int <= '9' as int {
        c as int - '0' as int
    } else {
        c as int - 'A' as int + 10
    }
}

/// The number that a text of hexadecimal digits, most significant first, reads as.
pub open spec fn read_hex(s: Seq<char>) -> int
    decreases s.len(),
{
    if s.len() == 0 {
        0
    } else {
        read_hex(s.drop_last()) * 16 + hex_digit_value(s.last())
    }
}

/// Sixteen to the power `w`.
pub open spec fn pow16(w: nat) -> nat
    decreases w,
{
    if w == 0 {
        1
    } else {
        16 * pow16((w - 1) as nat)
    }
}

/// The text of a number below sixteen to the power `width` is `width`
/// hexadecimal digits that read back as the number.
pub proof fn lemma_hex_text(x: nat, width: nat)
    requires
        x < pow16(width),
    ensures
        hex_text(x, width).len() == width,
        forall|i: int| 0 <= i < width ==> is_hex_digit(#[trigger] hex_text(x, width)[i]),
        read_hex(hex_text(x, width)) == x,
    decreases width,
{
    if width > 0 {
        lemma_hex_text(x / 16, (width - 1) as nat);
        let d = x % 16;
        let t = hex_text(x, width);
        assert(t.drop_last() =~= hex_text(x / 16, (width - 1) as nat));
        assert(is_hex_digit(hex_char(d)) && hex_digit_value(hex_char(d)) == d);
        assert forall|i: int| 0 <= i < width implies is_hex_digit(#[trigger] t[i]) by {
            if i < width - 1 {
                assert(t[i] == hex_text(x / 16, (width - 1) as nat)[i]);
            }
        }
    }
}

fn hex_digit(d: u32) -> (r: &'static str)
    requires
        d < 16,
    ensures
        r@ == seq![hex_char(d as nat)],
{
    let r = match d {
        0 => {
            proof {
                reveal_strlit("0");
            }
            "0"
        },
        1 => {
            proof {
                reveal_strlit("1");
            }
            "1"
        },
        2 => {
            proof {
                reveal_strlit("2");
            }
            "2"
        },
        3 => {
            proof {
                reveal_strlit("3");
            }
            "3"
        },
        4 => {
            proof {
                reveal_strlit("4");
            }
            "4"
        },
        5 => {
            proof {
                reveal_strlit("5");
            }
            "5"
        },
        6 => {
            proof {
                reveal_strlit("6");
            }
            "6"
        },
        7 => {
            proof {
                reveal_strlit("7");
            }
            "7"
        },
        8 => {
            proof {
                reveal_strlit("8");
            }
            "8"
        },
        9 => {
            proof {
                reveal_strlit("9");
            }
            "9"
        },
        10 => {
            proof {
                reveal_strlit("A");
            }
            "A"
        },
        11 => {
            proof {
                reveal_strlit("B");
            }
            "B"
        },
        12 => {
            proof {
                reveal_strlit("C");
            }
            "C"
        },
        13 => {
            proof {
                reveal_strlit("D");
            }
            "D"
        },
        14 => {
            proof {
                reveal_strlit("E");
            }
            "E"
        },
        _ => {
            proof {
                reveal_strlit("F");
            }
            "F"
        },
    };
    assert(r@ =~= seq![hex_char(d as nat)]);
    r
}

/// Appends the last `width` hexadecimal digits of `x` to `s`.
fn push_hex(s: &mut String, x: u32, width: usize)
    ensures
        final(s)@ == old(s)@ + hex_text(x as nat, width as nat),
    decreases width,
{
    if width > 0 {
        push_hex(s, x / 16, width - 1);
        s.append(hex_digit(x % 16));
        assert(final(s)@ =~= old(s)@ + hex_text(x as nat, width as nat));
    } else {
        assert(old(s)@ + hex_text(x as nat, 0) =~= old(s)@);
    }
}

impl StandardId {
    pub const MAX: u16 = 0x7FF;

    /// The raw value never exceeds `MAX`.
    #[verifier::type_invariant]
    pub closed spec fn wf(self) -> bool {
        self.0 <= 0x7FF
    }

    /// Returns the identifier with the given raw value, or `None` when it exceeds `MAX`.
    pub fn new(raw: u16) -> (r: Option<Self>)
        ensures
            r is Some <==> raw <= 0x7FF,
            r matches Some(id) ==> id@ == raw && id.wf(),
    {
        if raw <= Self::MAX {
            Some(Self(raw))
        } else {
            None
        }
    }

    /// The raw value of the identifier.
    pub fn as_raw(self) -> (r: u16)
        ensures
            r == self@,
            r <= 0x7FF,
            self.wf(),
    {
        proof {
            use_type_invariant(&self);
        }
        self.0
    }

    /// The raw value as three upper-case hexadecimal digits, such as `012`.
    pub fn to_hex(&self) -> (r: String)
        ensures
            r@ == hex_text(self@ as nat, 3),
            r@.len() == 3,
            forall|i: int| 0 <= i < 3 ==> is_hex_digit(#[trigger] r@[i]),
            read_hex(r@) == self@,
    {
        proof {
            use_type_invariant(self);
            reveal_with_fuel(pow16, 4);
            assert(pow16(3) == 4096);
            lemma_hex_text(self@ as nat, 3);
        }
        let mut s = String::new();
        push_hex(&mut s, self.0 as u32, 3);
        assert(s@ =~= hex_text(self@ as nat, 3));
        s
    }

    /// Two standard identifiers are the same exactly when their raw values are.
    pub proof fn lemma_view_injective(a: StandardId, b: StandardId)
        ensures
            a@ == b@ <==> a == b,
    {
    }
}

impl ExtendedId {
    pub const MAX: u32 = 0x1FFF_FFFF;

    /// The raw value never exceeds `MAX`.
    #[verifier::type_invariant]
    pub closed spec fn wf(self) -> bool {
        self.0 <= 0x1FFF_FFFF
    }

    /// Returns the identifier with the given raw value, or `None` when it exceeds `MAX`.
    pub fn new(raw: u32) -> (r: Option<Self>)
        ensures
            r is Some <==> raw <= 0x1FFF_FFFF,
            r matches Some(id) ==> id@ == raw && id.wf(),
    {
        if raw <= Self::MAX {
            Some(Self(raw))
        } else {
            None
        }
    }

    /// The raw value of the identifier.
    pub fn as_raw(self) -> (r: u32)
        ensures
            r == self@,
            r <= 0x1FFF_FFFF,
            self.wf(),
    {
        proof {
            use_type_invariant(&self);
        }
        self.0
    }

    /// The raw value as eight upper-case hexadecimal digits, such as `01033021`.
    pub fn to_hex(&self) -> (r: String)
        ensures
            r@ == hex_text(self@ as nat, 8),
            r@.len() == 8,
            forall|i: int| 0 <= i < 8 ==> is_hex_digit(#[trigger] r@[i]),
            read_hex(r@) == self@,
    {
        proof {
            reveal_with_fuel(pow16, 9);
            assert(pow16(8) == 0x1_0000_0000);
            lemma_hex_text(self@ as nat, 8);
        }
        let mut s = String::new();
        push_hex(&mut s, self.0, 8);
        assert(s@ =~= hex_text(self@ as nat, 8));
        s
    }

    /// Two extended identifiers are the same exactly when their raw values are.
    pub proof fn lemma_view_injective(a: ExtendedId, b: ExtendedId)
        ensures
            a@ == b@ <==> a == b,
    {
    }
}

impl CanId {
    /// Both the standard and the extended number are within range.
    pub open spec fn wf(self) -> bool {
        match self {
            CanId::Standard(id) => id.wf(),
            CanId::Extended(id) => id.wf(),
        }
    }

    pub fn is_standard(&self) -> (r: bool)
        ensures
            r <==> self is Standard,
            r <==> self@.is_standard(),
    {
        match self {
            CanId::Standard(_) => true,
            CanId::Extended(_) => false,
        }
    }

    pub fn is_extended(&self) -> (r: bool)
        ensures
            r <==> self is Extended,
            r <==> !self@.is_standard(),
    {
        !self.is_standard()
    }

    /// The raw value in hexadecimal: three digits for a standard identifier,
    /// eight for an extended one.
    pub fn to_hex(&self) -> (r: String)
        ensures
            r@ == match self@ {
                IdView::Standard(raw) => hex_text(raw as nat, 3),
                IdView::Extended(raw) => hex_text(raw as nat, 8),
            },
            forall|i: int| 0 <= i < r@.len() ==> is_hex_digit(#[trigger] r@[i]),
            read_hex(r@) == match self@ {
                IdView::Standard(raw) => raw as int,
                IdView::Extended(raw) => raw as int,
            },
    {
        match self {
            CanId::Standard(id) => id.to_hex(),
            CanId::Extended(id) => id.to_hex(),
        }
    }

    /// A well-formed identifier has its raw value in range.
    pub proof fn lemma_wf_in_range(id: CanId)
        requires
            id.wf(),
        ensures
            id@.in_range(),
    {
        match id {
            CanId::Standard(s) => {
                assert(s@ <= 0x7FF);
            },
            CanId::Extended(e) => {
                assert(e@ <= 0x1FFF_FFFF);
            },
        }
    }

    /// Two identifiers are the same exactly when their views are.
    pub proof fn lemma_view_injective(a: CanId, b: CanId)
        ensures
            a@ == b@ <==> a == b,
    {
        match (a, b) {
            (CanId::Standard(x), CanId::Standard(y)) => StandardId::lemma_view_injective(x, y),
            (CanId::Extended(x), CanId::Extended(y)) => ExtendedId::lemma_view_injective(x, y),
            _ => {},
        }
    }
}

impl From<StandardId> for CanId {
    fn from(id: StandardId) -> (r: Self)
        ensures
            r == CanId::Standard(id),
    {
        CanId::Standard(id)
    }
}

impl vstd::std_specs::convert::FromSpecImpl<StandardId> for CanId {
    open spec fn obeys_from_spec() -> bool {
        true
    }

    open spec fn from_spec(id: StandardId) -> CanId {
        CanId::Standard(id)
    }
}

impl From<ExtendedId> for CanId {
    fn from(id: ExtendedId) -> (r: Self)
        ensures
            r == CanId::Extended(id),
    {
        CanId::Extended(id)
    }
}

impl vstd::std_specs::convert::FromSpecImpl<ExtendedId> for CanId {
    open spec fn obeys_from_spec() -> bool {
        true
    }

    open spec fn from_spec(id: ExtendedId) -> CanId {
        CanId::Extended(id)
    }
}

} // verus!
