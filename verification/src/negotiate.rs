//! The negotiation policy around a publisher's offer: the payload-type
//! fallback and the opus fmtp parameter line attached to both the answer
//! and the derived subscriber offer. The SDP documents themselves are
//! built by the host's SDP library; storing and fanning out the derived
//! offer is handled with the message dispatchers.

use vstd::prelude::*;

verus! {

/// The payload type used when the answer names none.
pub fn payload_type_or_default(pt: Option<u32>) -> (r: u32)
    ensures
        pt matches Some(x) ==> r == x,
        pt is None ==> r == 100,
{
    match pt {
        Some(x) => x,
        None => 100,
    }
}

/// The decimal digit for a value below ten.
pub open spec fn digit_char(d: int) -> char {
    if d == 0 {
        '0'
    } else if d == 1 {
        '1'
    } else if d == 2 {
        '2'
    } else if d == 3 {
        '3'
    } else if d == 4 {
        '4'
    } else if d == 5 {
        '5'
    } else if d == 6 {
        '6'
    } else if d == 7 {
        '7'
    } else if d == 8 {
        '8'
    } else {
        '9'
    }
}

/// The decimal text of a number.
pub open spec fn decimal_text(n: int) -> Seq<char>
    decreases n,
{
    if n < 10 {
        seq![digit_char(n)]
    } else {
        decimal_text(n / 10) + seq![digit_char(n % 10)]
    }
}

fn append_digit(out: &mut String, d: u32)
    requires
        d < 10,
    ensures
        final(out)@ == old(out)@ + seq![digit_char(d as int)],
{
    if d == 0 {
        out.append("0");
        proof {
            reveal_strlit("0");
            assert(final(out)@ =~= old(out)@ + seq![digit_char(d as int)]);
        }
    } else if d == 1 {
        out.append("1");
        proof {
            reveal_strlit("1");
            assert(final(out)@ =~= old(out)@ + seq![digit_char(d as int)]);
        }
    } else if d == 2 {
        out.append("2");
        proof {
            reveal_strlit("2");
            assert(final(out)@ =~= old(out)@ + seq![digit_char(d as int)]);
        }
    } else if d == 3 {
        out.append("3");
        proof {
            reveal_strlit("3");
            assert(final(out)@ =~= old(out)@ + seq![digit_char(d as int)]);
        }
    } else if d == 4 {
        out.append("4");
        proof {
            reveal_strlit("4");
            assert(final(out)@ =~= old(out)@ + seq![digit_char(d as int)]);
        }
    } else if d == 5 {
        out.append("5");
        proof {
            reveal_strlit("5");
            assert(final(out)@ =~= old(out)@ + seq![digit_char(d as int)]);
        }
    } else if d == 6 {
        out.append("6");
        proof {
            reveal_strlit("6");
            assert(final(out)@ =~= old(out)@ + seq![digit_char(d as int)]);
        }
    } else if d == 7 {
        out.append("7");
        proof {
            reveal_strlit("7");
            assert(final(out)@ =~= old(out)@ + seq![digit_char(d as int)]);
        }
    } else if d == 8 {
        out.append("8");
        proof {
            reveal_strlit("8");
            assert(final(out)@ =~= old(out)@ + seq![digit_char(d as int)]);
        }
    } else {
        out.append("9");
        proof {
            reveal_strlit("9");
            assert(final(out)@ =~= old(out)@ + seq![digit_char(d as int)]);
        }
    }
}

fn push_decimal(out: &mut String, n: u32)
    ensures
        final(out)@ == old(out)@ + decimal_text(n as int),
    decreases n,
{
    if n < 10 {
        append_digit(out, n);
    } else {
        push_decimal(out, n / 10);
        append_digit(out, n % 10);
        proof {
            assert(final(out)@ =~= old(out)@ + (decimal_text(n as int / 10) + seq![
                digit_char(n as int % 10),
            ]));
        }
    }
}

/// The opus fmtp parameter line for a payload type: mono, no stereo
/// hinting, and discontinuous transmission on.
pub open spec fn spec_fmtp_line(pt: int) -> Seq<char> {
    decimal_text(pt) + " stereo=0; sprop-stereo=0; usedtx=1;"@
}

/// Builds the fmtp parameter line attached for the given audio payload
/// type.
pub fn fmtp_line(pt: u32) -> (r: String)
    ensures
        r@ == spec_fmtp_line(pt as int),
{
    let mut out = String::new();
    push_decimal(&mut out, pt);
    out.append(" stereo=0; sprop-stereo=0; usedtx=1;");
    out
}

} // verus!
