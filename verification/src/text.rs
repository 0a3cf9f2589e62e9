//! Text renderings that status messages embed: decimal numbers and byte
//! strings written as a list of numbers, as Rust's `{:?}` writes a `Vec<u8>`.
use vstd::prelude::*;

verus! {

/// The decimal digit for a value below ten.
pub open spec fn digit_char(d: int) -> char {
    (48 + d) as char
}

/// The decimal digits of a non-negative number, most significant first.
pub open spec fn decimal(n: nat) -> Seq<char>
    decreases n,
{
    if n < 10 {
        seq![digit_char(n as int)]
    } else {
        decimal(n / 10).push(digit_char((n % 10) as int))
    }
}

/// The numbers of a byte string, separated by `", "`.
pub open spec fn joined_decimals(data: Seq<u8>) -> Seq<char>
    decreases data.len(),
{
    if data.len() == 0 {
        Seq::empty()
    } else if data.len() == 1 {
        decimal(data[0] as nat)
    } else {
        joined_decimals(data.drop_last()) + ", "@ + decimal(data.last() as nat)
    }
}

/// A byte string as a bracketed list of decimal numbers: `[97, 98]`.
pub open spec fn debug_bytes(data: Seq<u8>) -> Seq<char> {
    "["@ + joined_decimals(data) + "]"@
}

/// The one-character text of a decimal digit.
fn digit_text(d: u8) -> (res: &'static str)
    requires
        d < 10,
    ensures
        res@ == seq![digit_char(d as int)],
{
    proof {
        reveal_strlit("0");
        reveal_strlit("1");
        reveal_strlit("2");
        reveal_strlit("3");
        reveal_strlit("4");
        reveal_strlit("5");
        reveal_strlit("6");
        reveal_strlit("7");
        reveal_strlit("8");
        reveal_strlit("9");
    }
    if d == 0 {
        "0"
    } else if d == 1 {
        "1"
    } else if d == 2 {
        "2"
    } else if d == 3 {
        "3"
    } else if d == 4 {
        "4"
    } else if d == 5 {
        "5"
    } else if d == 6 {
        "6"
    } else if d == 7 {
        "7"
    } else if d == 8 {
        "8"
    } else {
        "9"
    }
}

/// Appends the decimal digits of `n`.
pub fn push_decimal(out: &mut String, n: u8)
    ensures
        final(out)@ == old(out)@ + decimal(n as nat),
{
    let ghost start = out@;
    proof {
        reveal_with_fuel(decimal, 3);
    }
    if n >= 100 {
        out.append(digit_text(n / 100));
        out.append(digit_text((n / 10) % 10));
        out.append(digit_text(n % 10));
        assert(decimal((n / 10) as nat) == decimal((n / 100) as nat).push(digit_char(((n / 10) % 10) as int)));
    } else if n >= 10 {
        out.append(digit_text(n / 10));
        out.append(digit_text(n % 10));
    } else {
        out.append(digit_text(n));
    }
    assert(out@ =~= start + decimal(n as nat));
}

/// Writes a byte string as a bracketed list of decimal numbers.
pub fn write_debug_bytes(data: &[u8]) -> (res: String)
    ensures
        res@ == debug_bytes(data@),
{
    let mut out = "[".to_owned();
    let n = data.len();
    let mut i: usize = 0;
    while i < n
        invariant
            n == data@.len(),
            i <= n,
            out@ == "["@ + joined_decimals(data@.subrange(0, i as int)),
        decreases n - i,
    {
        let ghost before = out@;
        let ghost sub = data@.subrange(0, i + 1);
        assert(sub.drop_last() =~= data@.subrange(0, i as int));
        assert(sub.last() == data@[i as int]);
        if i > 0 {
            out.append(", ");
        }
        push_decimal(&mut out, data[i]);
        proof {
            if i == 0 {
                assert(data@.subrange(0, 0) =~= Seq::<u8>::empty());
                assert(sub.len() == 1);
                assert(out@ =~= "["@ + joined_decimals(sub));
            } else {
                assert(out@ =~= "["@ + joined_decimals(sub));
            }
        }
        i = i + 1;
    }
    assert(data@.subrange(0, n as int) =~= data@);
    out.append("]");
    out
}

} // verus!
