//! Lower-case hexadecimal text of a byte string.

use vstd::prelude::*;
use vstd::string::StringExecFns;

verus! {

/// The sixteen digits, by value.
pub open spec fn hex_digits() -> Seq<char> {
    seq!['0', '1', '2', '3', '4', '5', '6', '7', '8', '9', 'a', 'b', 'c', 'd', 'e', 'f']
}

/// The two digits of one byte, high nibble first.
pub open spec fn spec_hex_byte(byte: u8) -> Seq<char> {
    seq![hex_digits()[(byte / 16) as int], hex_digits()[(byte % 16) as int]]
}

/// The digits of a byte string: two per byte, in order.
pub open spec fn spec_hex_lower(bytes: Seq<u8>) -> Seq<char>
    decreases bytes.len(),
{
    if bytes.len() == 0 {
        Seq::empty()
    } else {
        spec_hex_lower(bytes.drop_last()) + spec_hex_byte(bytes.last())
    }
}

/// The text is twice as long as the byte string.
pub proof fn lemma_hex_len(bytes: Seq<u8>)
    ensures
        spec_hex_lower(bytes).len() == 2 * bytes.len(),
    decreases bytes.len(),
{
    if bytes.len() > 0 {
        lemma_hex_len(bytes.drop_last());
    }
}

/// Two bytes with the same digits are the same byte.
pub proof fn lemma_hex_byte_injective(a: u8, b: u8)
    requires
        spec_hex_byte(a) == spec_hex_byte(b),
    ensures
        a == b,
{
    let x = spec_hex_byte(a);
    let y = spec_hex_byte(b);
    assert(x[0] == y[0]);
    assert(x[1] == y[1]);
    assert(a / 16 == b / 16);
    assert(a % 16 == b % 16);
}

/// Two byte strings with the same text are the same byte string.
pub proof fn lemma_hex_injective(a: Seq<u8>, b: Seq<u8>)
    requires
        spec_hex_lower(a) == spec_hex_lower(b),
    ensures
        a == b,
    decreases a.len(),
{
    lemma_hex_len(a);
    lemma_hex_len(b);
    if a.len() == 0 {
        assert(a =~= b);
    } else {
        let ha = spec_hex_lower(a.drop_last());
        let hb = spec_hex_lower(b.drop_last());
        lemma_hex_len(a.drop_last());
        lemma_hex_len(b.drop_last());
        let whole = spec_hex_lower(a);
        assert(whole == ha + spec_hex_byte(a.last()));
        assert(whole == hb + spec_hex_byte(b.last()));
        assert(ha =~= whole.subrange(0, ha.len() as int));
        assert(hb =~= whole.subrange(0, hb.len() as int));
        assert(spec_hex_byte(a.last()) =~= whole.subrange(ha.len() as int, whole.len() as int));
        assert(spec_hex_byte(b.last()) =~= whole.subrange(hb.len() as int, whole.len() as int));
        lemma_hex_injective(a.drop_last(), b.drop_last());
        lemma_hex_byte_injective(a.last(), b.last());
        assert(a =~= a.drop_last().push(a.last()));
        assert(b =~= b.drop_last().push(b.last()));
    }
}

/// The digit of a value below sixteen, as text.
fn hex_digit(value: u8) -> (digit: &'static str)
    requires
        value < 16,
    ensures
        digit@ == seq![hex_digits()[value as int]],
{
    proof {
        reveal_strlit("0");
        reveal_strlit("1");
        reveal_strlit("2");
        reveal_strlit("3");
        reveal_strlit("4");
        reveal_strlit("5");
        reveal_strlit("6");
        reveal_strlit("7");
        reveal_strlit("8");
        reveal_strlit("9");
        reveal_strlit("a");
        reveal_strlit("b");
        reveal_strlit("c");
        reveal_strlit("d");
        reveal_strlit("e");
        reveal_strlit("f");
    }
    let digit = if value == 0 {
        "0"
    } else if value == 1 {
        "1"
    } else if value == 2 {
        "2"
    } else if value == 3 {
        "3"
    } else if value == 4 {
        "4"
    } else if value == 5 {
        "5"
    } else if value == 6 {
        "6"
    } else if value == 7 {
        "7"
    } else if value == 8 {
        "8"
    } else if value == 9 {
        "9"
    } else if value == 10 {
        "a"
    } else if value == 11 {
        "b"
    } else if value == 12 {
        "c"
    } else if value == 13 {
        "d"
    } else if value == 14 {
        "e"
    } else {
        "f"
    };
    proof {
        assert(digit@ =~= seq![hex_digits()[value as int]]);
    }
    digit
}

/// Writes a byte string as lower-case hexadecimal text.
pub fn hex_lower(bytes: &[u8]) -> (text: String)
    ensures
        text@ == spec_hex_lower(bytes@),
{
    let mut text = String::new();
    let mut i: usize = 0;
    while i < bytes.len()
        invariant
            i <= bytes@.len(),
            text@ == spec_hex_lower(bytes@.take(i as int)),
        decreases bytes@.len() - i,
    {
        let byte: u8 = bytes[i];
        let high = hex_digit(byte / 16);
        let low = hex_digit(byte % 16);
        proof {
            let next = bytes@.take(i + 1);
            assert(next.drop_last() =~= bytes@.take(i as int));
            assert(next.last() == byte);
            assert(text@ + high@ + low@ =~= text@ + spec_hex_byte(byte));
        }
        text.append(high);
        text.append(low);
        i = i + 1;
    }
    proof {
        assert(bytes@.take(i as int) =~= bytes@);
    }
    text
}

} // verus!
