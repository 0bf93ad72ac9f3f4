use vstd::prelude::*;
use crate::io::{Port, RingBuffer, pushed};

verus! {

/// Data port of the PS/2 controller.
pub const KEYBOARD_DATA_PORT: u16 = 0x60;
/// Status port of the PS/2 controller.
pub const KEYBOARD_STATUS_PORT: u16 = 0x64;

/// The PS/2 keyboard: its data and status ports.
#[derive(Debug, Clone, Copy, PartialEq, Eq, Structural)]
pub struct Keyboard {
    pub data_port: Port,
    pub status_port: Port,
}

impl Keyboard {
    pub fn new() -> (k: Self)
        ensures
            k.data_port.port == KEYBOARD_DATA_PORT,
            k.status_port.port == KEYBOARD_STATUS_PORT,
    {
        Keyboard { data_port: Port::new(KEYBOARD_DATA_PORT), status_port: Port::new(KEYBOARD_STATUS_PORT) }
    }

    /// Whether the status byte read from the status port says a scancode
    /// is waiting in the data port (bit 0).
    pub fn output_full(status: u8) -> (b: bool)
        ensures
            b == (status & 1 != 0),
    {
        status & 1 != 0
    }
}

/// The byte a set-1 make code stands for on a US layout, if any.
pub open spec fn scancode_ascii(scancode: u8) -> Option<u8> {
    match scancode {
        0x01 => Some(0x1Bu8),
        0x02 => Some(0x31u8), 0x03 => Some(0x32u8), 0x04 => Some(0x33u8), 0x05 => Some(0x34u8),
        0x06 => Some(0x35u8), 0x07 => Some(0x36u8), 0x08 => Some(0x37u8), 0x09 => Some(0x38u8),
        0x0A => Some(0x39u8), 0x0B => Some(0x30u8), 0x0C => Some(0x2Du8), 0x0D => Some(0x3Du8),
        0x0E => Some(8u8),
        0x0F => Some(0x09u8), 0x10 => Some(0x71u8), 0x11 => Some(0x77u8), 0x12 => Some(0x65u8),
        0x13 => Some(0x72u8), 0x14 => Some(0x74u8), 0x15 => Some(0x79u8), 0x16 => Some(0x75u8),
        0x17 => Some(0x69u8), 0x18 => Some(0x6Fu8), 0x19 => Some(0x70u8), 0x1A => Some(0x5Bu8),
        0x1B => Some(0x5Du8), 0x1C => Some(0x0Au8),
        0x1E => Some(0x61u8), 0x1F => Some(0x73u8), 0x20 => Some(0x64u8), 0x21 => Some(0x66u8),
        0x22 => Some(0x67u8), 0x23 => Some(0x68u8), 0x24 => Some(0x6Au8), 0x25 => Some(0x6Bu8),
        0x26 => Some(0x6Cu8), 0x27 => Some(0x3Bu8), 0x28 => Some(0x27u8), 0x29 => Some(0x60u8),
        0x2B => Some(0x5Cu8), 0x2C => Some(0x7Au8), 0x2D => Some(0x78u8), 0x2E => Some(0x63u8),
        0x2F => Some(0x76u8), 0x30 => Some(0x62u8), 0x31 => Some(0x6Eu8), 0x32 => Some(0x6Du8),
        0x33 => Some(0x2Cu8), 0x34 => Some(0x2Eu8), 0x35 => Some(0x2Fu8), 0x39 => Some(0x20u8),
        0x4E => Some(0x3Eu8),
        _ => None,
    }
}

/// Translates a make code: ESC, digits, letters, punctuation, backspace,
/// tab, enter (a line feed) and space; keypad plus reads as `>`. Other codes
/// give `None`. Values are ASCII codes.
pub fn scancode_to_ascii(scancode: u8) -> (r: Option<u8>)
    ensures
        r == scancode_ascii(scancode),
{
    match scancode {
        0x01 => Some(0x1Bu8),
        0x02 => Some(0x31u8), 0x03 => Some(0x32u8), 0x04 => Some(0x33u8), 0x05 => Some(0x34u8),
        0x06 => Some(0x35u8), 0x07 => Some(0x36u8), 0x08 => Some(0x37u8), 0x09 => Some(0x38u8),
        0x0A => Some(0x39u8), 0x0B => Some(0x30u8), 0x0C => Some(0x2Du8), 0x0D => Some(0x3Du8),
        0x0E => Some(8u8),
        0x0F => Some(0x09u8), 0x10 => Some(0x71u8), 0x11 => Some(0x77u8), 0x12 => Some(0x65u8),
        0x13 => Some(0x72u8), 0x14 => Some(0x74u8), 0x15 => Some(0x79u8), 0x16 => Some(0x75u8),
        0x17 => Some(0x69u8), 0x18 => Some(0x6Fu8), 0x19 => Some(0x70u8), 0x1A => Some(0x5Bu8),
        0x1B => Some(0x5Du8), 0x1C => Some(0x0Au8),
        0x1E => Some(0x61u8), 0x1F => Some(0x73u8), 0x20 => Some(0x64u8), 0x21 => Some(0x66u8),
        0x22 => Some(0x67u8), 0x23 => Some(0x68u8), 0x24 => Some(0x6Au8), 0x25 => Some(0x6Bu8),
        0x26 => Some(0x6Cu8), 0x27 => Some(0x3Bu8), 0x28 => Some(0x27u8), 0x29 => Some(0x60u8),
        0x2B => Some(0x5Cu8), 0x2C => Some(0x7Au8), 0x2D => Some(0x78u8), 0x2E => Some(0x63u8),
        0x2F => Some(0x76u8), 0x30 => Some(0x62u8), 0x31 => Some(0x6Eu8), 0x32 => Some(0x6Du8),
        0x33 => Some(0x2Cu8), 0x34 => Some(0x2Eu8), 0x35 => Some(0x2Fu8), 0x39 => Some(0x20u8),
        0x4E => Some(0x3Eu8),
        _ => None,
    }
}

/// What the keyboard interrupt does with a scancode: key presses (codes
/// below 0x80) are queued, key releases are dropped.
pub fn record_scancode(buffer: &mut RingBuffer, scancode: u8)
    requires
        old(buffer).wf(),
    ensures
        final(buffer).wf(),
        scancode < 0x80 ==> final(buffer)@ == pushed(old(buffer)@, scancode),
        scancode >= 0x80 ==> final(buffer)@ == old(buffer)@,
{
    if scancode < 0x80 {
        buffer.push(scancode);
    }
}


/// The keys of a US keyboard translate to what is printed on them: along
/// the digit row (make codes 0x02..0x0B) `1234567890`, along the three
/// letter rows (0x10..0x19, 0x1E..0x26, 0x2C..0x32) the lowercase letters
/// `qwertyuiop`, `asdfghjkl` and `zxcvbnm`; the space bar (0x39) a space,
/// Enter (0x1C) a line feed, Backspace (0x0E) a backspace, Escape (0x01)
/// an escape; and a key release (0x80 and up) translates to nothing.
pub proof fn law_us_layout(code: u8)
    ensures
        0x02 <= code <= 0x0B ==> scancode_ascii(code) == Some("1234567890"@[code - 0x02] as u8),
        0x10 <= code <= 0x19 ==> scancode_ascii(code) == Some("qwertyuiop"@[code - 0x10] as u8),
        0x1E <= code <= 0x26 ==> scancode_ascii(code) == Some("asdfghjkl"@[code - 0x1E] as u8),
        0x2C <= code <= 0x32 ==> scancode_ascii(code) == Some("zxcvbnm"@[code - 0x2C] as u8),
        scancode_ascii(0x39) == Some(0x20u8),
        scancode_ascii(0x1C) == Some(0x0Au8),
        scancode_ascii(0x0E) == Some(0x08u8),
        scancode_ascii(0x01) == Some(0x1Bu8),
        code >= 0x80 ==> scancode_ascii(code) is None,
{
    reveal_strlit("1234567890");
    reveal_strlit("qwertyuiop");
    reveal_strlit("asdfghjkl");
    reveal_strlit("zxcvbnm");
}

/// Distinct letter keys give distinct letters, and every lowercase letter
/// has its key: the 26 letter make codes translate one to one onto `a..z`.
pub proof fn law_letters_one_to_one(c1: u8, c2: u8, ch: u8)
    ensures
        is_letter_key(c1) && is_letter_key(c2) && c1 != c2 ==> scancode_ascii(c1) != scancode_ascii(c2),
        is_letter_key(c1) ==> (scancode_ascii(c1) matches Some(a) && 0x61 <= a <= 0x7A),
        0x61 <= ch <= 0x7A ==> exists|k: u8| is_letter_key(k) && #[trigger] scancode_ascii(k) == Some(ch),
{
    if 0x61 <= ch <= 0x7A {
        let k: u8 = if ch == 0x61 { 0x1E } else if ch == 0x62 { 0x30 } else if ch == 0x63 { 0x2E } else if ch == 0x64 { 0x20 }
            else if ch == 0x65 { 0x12 } else if ch == 0x66 { 0x21 } else if ch == 0x67 { 0x22 } else if ch == 0x68 { 0x23 }
            else if ch == 0x69 { 0x17 } else if ch == 0x6A { 0x24 } else if ch == 0x6B { 0x25 } else if ch == 0x6C { 0x26 }
            else if ch == 0x6D { 0x32 } else if ch == 0x6E { 0x31 } else if ch == 0x6F { 0x18 } else if ch == 0x70 { 0x19 }
            else if ch == 0x71 { 0x10 } else if ch == 0x72 { 0x13 } else if ch == 0x73 { 0x1F } else if ch == 0x74 { 0x14 }
            else if ch == 0x75 { 0x16 } else if ch == 0x76 { 0x2F } else if ch == 0x77 { 0x11 } else if ch == 0x78 { 0x2D }
            else if ch == 0x79 { 0x15 } else { 0x2C };
        assert(is_letter_key(k) && scancode_ascii(k) == Some(ch));
    }
}

/// `code` is the make code of a letter key.
pub open spec fn is_letter_key(code: u8) -> bool {
    (0x10 <= code <= 0x19) || (0x1E <= code <= 0x26) || (0x2C <= code <= 0x32)
}

} // verus!
