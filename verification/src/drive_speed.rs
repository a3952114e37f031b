//! The measured rotation time of a drive, as the tool stores it per drive.
use vstd::prelude::*;

use crate::rawtrack::{all_digits, digits_value, parse_decimal, parse_u32};
use crate::types::DriveSelectState;

verus! {

/// Timer ticks of one rotation at 361 rotations per minute, the speed assumed for a
/// 5.25 inch drive, with the timer at 84 MHz.
pub const DRIVE_5_25_TIMER_TICKS_PER_ROTATION: u32 = 13_961_218;

/// The name of the file that holds the speed of a drive; no drive has none.
pub fn speed_config_file_name(drive: DriveSelectState) -> (r: Option<&'static str>)
    ensures
        drive == DriveSelectState::Unselected ==> r is None,
        drive == DriveSelectState::A ==> r == Some("speed_a.cfg"),
        drive == DriveSelectState::B ==> r == Some("speed_b.cfg"),
{
    match drive {
        DriveSelectState::Unselected => None,
        DriveSelectState::A => Some("speed_a.cfg"),
        DriveSelectState::B => Some("speed_b.cfg"),
    }
}

/// The first line of a text: up to the first line feed, without a carriage return before
/// it.
pub open spec fn first_line(b: Seq<u8>) -> Seq<u8> {
    let line = match first_newline(b, 0) {
        Some(i) => b.take(i),
        None => b,
    };
    if line.len() > 0 && line.last() == 0x0du8 {
        line.drop_last()
    } else {
        line
    }
}

/// The position of the first line feed from `i` on.
pub open spec fn first_newline(b: Seq<u8>, i: nat) -> Option<int>
    decreases b.len() - i,
{
    if i >= b.len() {
        None
    } else if b[i as int] == 0x0au8 {
        Some(i as int)
    } else {
        first_newline(b, i + 1)
    }
}

/// Reads the stored ticks of a rotation: the first line of the file as a decimal number.
pub fn parse_stored_ticks(content: &[u8]) -> (r: Option<u32>)
    ensures
        r == parse_u32(first_line(content@)),
{
    let mut i: usize = 0;
    while i < content.len() && content[i] != 0x0a
        invariant
            i <= content@.len(),
            first_newline(content@, 0) == first_newline(content@, i as nat),
        decreases content@.len() - i,
    {
        i = i + 1;
    }
    let ghost line = content@.take(i as int);
    assert(line == (match first_newline(content@, 0) {
        Some(k) => content@.take(k),
        None => content@,
    })) by {
        if i >= content@.len() {
            assert(content@.take(i as int) =~= content@);
        }
    }
    let end = if i > 0 && content[i - 1] == 0x0d {
        i - 1
    } else {
        i
    };
    let line_slice = &content[0..end];
    assert(line_slice@ == first_line(content@)) by {
        if i > 0 && content@[i - 1] == 0x0du8 {
            assert(line.drop_last() =~= content@.take(end as int));
        }
    }
    parse_decimal(line_slice)
}

/// The ticks of a rotation: the stored ones, else those of a 5.25 inch drive.
pub fn get_timer_ticks_per_rotation(stored: Option<u32>) -> (r: u32)
    ensures
        r == match stored {
            Some(t) => t,
            None => DRIVE_5_25_TIMER_TICKS_PER_ROTATION,
        },
{
    match stored {
        Some(t) => t,
        None => DRIVE_5_25_TIMER_TICKS_PER_ROTATION,
    }
}

/// The decimal digits of `n`, most significant first, without leading zeros.
pub open spec fn decimal_digits(n: nat) -> Seq<u8>
    decreases n,
{
    if n < 10 {
        seq![(0x30 + n) as u8]
    } else {
        decimal_digits(n / 10).push((0x30 + n % 10) as u8)
    }
}

proof fn lemma_decimal_digits(n: nat)
    ensures
        decimal_digits(n).len() >= 1,
        all_digits(decimal_digits(n)),
        digits_value(decimal_digits(n)) == n,
    decreases n,
{
    if n < 10 {
        let d = decimal_digits(n);
        assert(d.drop_last() =~= Seq::<u8>::empty());
        assert(d.last() == (0x30 + n) as u8);
        assert(((0x30 + n) as u8) as int == 0x30 + n);
        assert(digits_value(d.drop_last()) == 0);
        assert(digits_value(d) == digits_value(d.drop_last()) * 10 + (d.last() - 0x30u8));
    } else {
        lemma_decimal_digits(n / 10);
        let d = decimal_digits(n);
        assert(d.drop_last() == decimal_digits(n / 10));
        assert(((0x30 + n % 10) as u8) as int == 0x30 + n % 10);
        assert(d.last() == (0x30 + n % 10) as u8);
        assert((n / 10) * 10 + n % 10 == n);
        assert(digits_value(d) == digits_value(d.drop_last()) * 10 + (d.last() - 0x30u8));
        assert forall|i: int| 0 <= i < d.len() implies 0x30u8 <= #[trigger] d[i] <= 0x39u8 by {
            if i < d.len() - 1 {
                assert(d[i] == decimal_digits(n / 10)[i]);
            }
        }
    }
}

/// Appends the decimal digits of `n` to `out`.
fn push_decimal(n: u32, out: &mut Vec<u8>)
    ensures
        final(out)@ == old(out)@ + decimal_digits(n as nat),
    decreases n,
{
    if n < 10 {
        out.push(0x30 + n as u8);
        assert(final(out)@ =~= old(out)@ + decimal_digits(n as nat));
    } else {
        push_decimal(n / 10, out);
        out.push(0x30 + (n % 10) as u8);
        assert(out@ =~= old(out)@ + decimal_digits(n as nat));
    }
}

/// The text stored for the ticks of a rotation: the number in decimal and a line feed.
pub fn format_stored_ticks(ticks: u32) -> (r: Vec<u8>)
    ensures
        r@ == decimal_digits(ticks as nat).push(0x0au8),
{
    let mut out: Vec<u8> = Vec::new();
    push_decimal(ticks, &mut out);
    out.push(0x0a);
    assert(out@ =~= decimal_digits(ticks as nat).push(0x0au8));
    out
}

/// What is stored for the ticks of a rotation reads back as those ticks.
pub proof fn lemma_stored_ticks_read_back(ticks: u32)
    ensures
        parse_u32(first_line(decimal_digits(ticks as nat).push(0x0au8))) == Some(ticks),
{
    let d = decimal_digits(ticks as nat);
    let text = d.push(0x0au8);
    lemma_decimal_digits(ticks as nat);
    assert forall|k: nat| k <= d.len() implies first_newline(text, k) == Some(d.len() as int) by {
        lemma_newline_after_digits(d, k);
    }
    assert(first_newline(text, 0) == Some(d.len() as int));
    assert(text.take(d.len() as int) =~= d);
    assert(d.last() != 0x0du8) by {
        assert(0x30u8 <= d[d.len() - 1] <= 0x39u8);
    }
    assert(d[0] != 0x2bu8) by {
        assert(0x30u8 <= d[0] <= 0x39u8);
    }
}

proof fn lemma_newline_after_digits(d: Seq<u8>, k: nat)
    requires
        all_digits(d),
        k <= d.len(),
    ensures
        first_newline(d.push(0x0au8), k) == Some(d.len() as int),
    decreases d.len() - k,
{
    if k < d.len() {
        assert(0x30u8 <= d[k as int] <= 0x39u8);
        assert(d.push(0x0au8)[k as int] == d[k as int]);
        lemma_newline_after_digits(d, k + 1);
    }
}

} // verus!
