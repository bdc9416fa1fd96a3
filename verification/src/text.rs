//! Text: decimal numbers, and the byte order of strings.

use vstd::prelude::*;
use vstd::string::StringExecFns;
use vstd::utf8::encode_utf8;

verus! {

/// The decimal digit for `d`, which is below ten.
pub open spec fn digit(d: nat) -> char {
    (48 + d) as char
}

/// `n` written in decimal, without leading zeros.
pub open spec fn decimal(n: nat) -> Seq<char>
    decreases n,
{
    if n < 10 {
        seq![digit(n)]
    } else {
        decimal(n / 10).push(digit(n % 10))
    }
}

/// What decimal digits amount to, read from the left.
pub open spec fn numeral(digits: Seq<char>) -> int {
    digits.fold_left(0int, |n: int, c: char| 10 * n + (c as int - 48))
}

/// A number is written with decimal digits, without needless zeros, and what they
/// amount to is the number.
pub proof fn law_decimal(n: nat)
    ensures
        decimal(n).fold_left(0int, |n: int, c: char| 10 * n + (c as int - 48)) == n,
        numeral(decimal(n)) == n,
        decimal(n).len() > 0,
        forall|i: int| 0 <= i < decimal(n).len() ==> '0' <= #[trigger] decimal(n)[i] <= '9',
        decimal(n).len() > 1 ==> decimal(n)[0] != '0',
    decreases n,
{
    let f = |n: int, c: char| 10 * n + (c as int - 48);
    let digits = decimal(n);
    lemma_decimal_digits(n);
    reveal_with_fuel(Seq::fold_left, 2);
    if n < 10 {
        assert(digits.drop_last() =~= Seq::<char>::empty());
        assert(digits.last() == digit(n));
        assert(Seq::<char>::empty().fold_left(0int, f) == 0);
        assert(digits.fold_left(0int, f) == f(0, digit(n)));
    } else {
        law_decimal(n / 10);
        lemma_decimal_digits(n / 10);
        assert(digits.drop_last() =~= decimal(n / 10));
        assert(digits.last() == digit(n % 10));
        assert(digits.fold_left(0int, f) == f((n / 10) as int, digit(n % 10)));
        assert(digits[0] == decimal(n / 10)[0]);
        if decimal(n / 10).len() == 1 && decimal(n / 10)[0] == '0' {
            assert(n / 10 < 10) by {
                if n / 10 >= 10 {
                    lemma_decimal_digits(n / 10 / 10);
                }
            }
        }
    }
}

fn digit_text(d: u64) -> (r: &'static str)
    requires
        d < 10,
    ensures
        r@ == seq![digit(d as nat)],
{
    proof {
        reveal_strlit("0");
        reveal_strlit("1");
        reveal_strlit("2");
        reveal_strlit("3");
        reveal_strlit("4");
        reveal_strlit("5");
        reveal_strlit("6");
        reveal_strlit("7");
        reveal_strlit("8");
        reveal_strlit("9");
    }
    if d == 0 {
        "0"
    } else if d == 1 {
        "1"
    } else if d == 2 {
        "2"
    } else if d == 3 {
        "3"
    } else if d == 4 {
        "4"
    } else if d == 5 {
        "5"
    } else if d == 6 {
        "6"
    } else if d == 7 {
        "7"
    } else if d == 8 {
        "8"
    } else {
        "9"
    }
}

/// Writes `n` in decimal.
pub fn decimal_string(n: u64) -> (r: String)
    ensures
        r@ == decimal(n as nat),
        r@.fold_left(0int, |n: int, c: char| 10 * n + (c as int - 48)) == n,
        forall|i: int| 0 <= i < r@.len() ==> '0' <= #[trigger] r@[i] <= '9',
        r@.len() > 1 ==> r@[0] != '0',
    decreases n,
{
    proof {
        law_decimal(n as nat);
    }
    if n < 10 {
        digit_text(n).to_owned()
    } else {
        let mut r = decimal_string(n / 10);
        r.append(digit_text(n % 10));
        r
    }
}

/// `a` comes before `b` in dictionary order, the elements compared as numbers.
pub open spec fn bytes_before(a: Seq<u8>, b: Seq<u8>) -> bool
    decreases a.len(),
{
    if b.len() == 0 {
        false
    } else if a.len() == 0 {
        true
    } else if a[0] != b[0] {
        a[0] < b[0]
    } else {
        bytes_before(a.drop_first(), b.drop_first())
    }
}

/// `a` comes before `b` in the order of strings: that of their UTF-8 bytes.
pub open spec fn before(a: Seq<char>, b: Seq<char>) -> bool {
    bytes_before(encode_utf8(a), encode_utf8(b))
}

/// A number is written with nothing but decimal digits.
pub proof fn lemma_decimal_digits(n: nat)
    ensures
        decimal(n).len() > 0,
        forall|i: int| 0 <= i < decimal(n).len() ==> '0' <= #[trigger] decimal(n)[i] <= '9',
    decreases n,
{
    if n >= 10 {
        lemma_decimal_digits(n / 10);
        let shorter = decimal(n / 10);
        assert forall|i: int| 0 <= i < decimal(n).len() implies '0' <= #[trigger] decimal(n)[i]
            <= '9' by {
            if i < shorter.len() {
                assert(decimal(n)[i] == shorter[i]);
            }
        }
    }
}

/// No two numbers are written alike.
pub proof fn lemma_decimal_injective(a: nat, b: nat)
    requires
        decimal(a) == decimal(b),
    ensures
        a == b,
    decreases a,
{
    lemma_decimal_digits(a / 10);
    lemma_decimal_digits(b / 10);
    assert(decimal(a).last() == digit(a % 10));
    assert(decimal(b).last() == digit(b % 10));
    if a >= 10 && b >= 10 {
        assert(decimal(a / 10) =~= decimal(a).drop_last());
        assert(decimal(b / 10) =~= decimal(b).drop_last());
        lemma_decimal_injective(a / 10, b / 10);
    }
}

/// The bytes of two texts in a row are the bytes of the first and of the second.
pub proof fn lemma_encode_concat(a: Seq<char>, b: Seq<char>)
    ensures
        encode_utf8(a + b) == encode_utf8(a) + encode_utf8(b),
    decreases a.len(),
{
    if a.len() == 0 {
        assert(a + b =~= b);
        assert(encode_utf8(a) + encode_utf8(b) =~= encode_utf8(b));
    } else {
        lemma_encode_concat(a.drop_first(), b);
        assert((a + b).drop_first() =~= a.drop_first() + b);
        assert((a + b)[0] == a[0]);
        assert(encode_utf8(a + b) =~= encode_utf8(a) + encode_utf8(b));
    }
}

proof fn lemma_bytes_before(a: Seq<u8>, b: Seq<u8>)
    ensures
        bytes_before(a, b) <==> exists|k: int| #[trigger] parts_at(a, b, k),
    decreases a.len(),
{
    if b.len() == 0 {
    } else if a.len() == 0 {
        assert(a.take(0) =~= b.take(0));
        assert(parts_at(a, b, 0));
    } else {
        let x = a.drop_first();
        let y = b.drop_first();
        lemma_bytes_before(x, y);
        if a[0] != b[0] {
            if a[0] < b[0] {
                assert(a.take(0) =~= b.take(0));
                assert(parts_at(a, b, 0));
            }
            assert forall|k: int| parts_at(a, b, k) implies k == 0 by {
                if k > 0 {
                    assert(a.take(k)[0] == b.take(k)[0]);
                }
            }
        } else {
            assert forall|k: int| parts_at(a, b, k) implies k > 0 && parts_at(x, y, k - 1) by {
                assert(k != 0);
                assert(x.take(k - 1) =~= a.take(k).drop_first());
                assert(y.take(k - 1) =~= b.take(k).drop_first());
            }
            assert forall|k: int| parts_at(x, y, k) implies parts_at(a, b, k + 1) by {
                assert(a.take(k + 1) =~= seq![a[0]] + x.take(k));
                assert(b.take(k + 1) =~= seq![b[0]] + y.take(k));
            }
            if exists|k: int| parts_at(a, b, k) {
                let k = choose|k: int| parts_at(a, b, k);
                assert(parts_at(x, y, k - 1));
            }
            if exists|k: int| parts_at(x, y, k) {
                let k = choose|k: int| parts_at(x, y, k);
                assert(parts_at(a, b, k + 1));
            }
        }
    }
}

spec fn parts_at(a: Seq<u8>, b: Seq<u8>, k: int) -> bool {
    &&& 0 <= k <= a.len()
    &&& k < b.len()
    &&& a.take(k) == b.take(k)
    &&& k == a.len() || a[k] < b[k]
}

/// One text comes before another exactly where, behind what both begin with alike,
/// the one ends or has the lesser byte.
pub proof fn law_before(a: Seq<char>, b: Seq<char>)
    ensures
        before(a, b) <==> exists|k: int|
            #![trigger encode_utf8(a).take(k)]
            {
                &&& 0 <= k <= encode_utf8(a).len()
                &&& k < encode_utf8(b).len()
                &&& encode_utf8(a).take(k) == encode_utf8(b).take(k)
                &&& k == encode_utf8(a).len() || encode_utf8(a)[k] < encode_utf8(b)[k]
            },
{
    let x = encode_utf8(a);
    let y = encode_utf8(b);
    lemma_bytes_before(x, y);
    if before(a, b) {
        let k = choose|k: int| parts_at(x, y, k);
        assert(x.take(k) == y.take(k));
    }
    if exists|k: int|
        #![trigger x.take(k)]
        0 <= k <= x.len() && k < y.len() && x.take(k) == y.take(k) && (k == x.len() || x[k]
            < y[k]) {
        let k = choose|k: int|
            #![trigger x.take(k)]
            0 <= k <= x.len() && k < y.len() && x.take(k) == y.take(k) && (k == x.len() || x[k]
                < y[k]);
        assert(parts_at(x, y, k));
    }
}

/// Two texts with the same bytes are the same text.
pub proof fn lemma_same_bytes(a: Seq<char>, b: Seq<char>)
    requires
        encode_utf8(a) == encode_utf8(b),
    ensures
        a == b,
{
    vstd::utf8::encode_utf8_decode_utf8(a);
    vstd::utf8::encode_utf8_decode_utf8(b);
}

/// Whether `a` and `b` are the same text.
pub fn text_equal(a: &str, b: &str) -> (r: bool)
    ensures
        r == (a@ == b@),
{
    let x = a.as_bytes();
    let y = b.as_bytes();
    if x.len() != y.len() {
        return false;
    }
    let mut i: usize = 0;
    while i < x.len()
        invariant
            i <= x.len(),
            x.len() == y.len(),
            x@ == encode_utf8(a@),
            y@ == encode_utf8(b@),
            forall|j: int| 0 <= j < i ==> x@[j] == y@[j],
        decreases x.len() - i,
    {
        if x[i] != y[i] {
            return false;
        }
        i = i + 1;
    }
    proof {
        assert(x@ =~= y@);
        lemma_same_bytes(a@, b@);
    }
    true
}

/// Whether a character stands in `text`.
pub fn holds_char(text: &str, wanted: char) -> (r: bool)
    ensures
        r == text@.contains(wanted),
{
    for c in it: text.chars()
        invariant
            it.seq() == text@,
            forall|i: int| 0 <= i < it.index() ==> text@[i] != wanted,
    {
        if c == wanted {
            assert(text@[it.index()] == wanted);
            return true;
        }
    }
    false
}

/// Whether `a` comes before `b` in the order of strings.
pub fn text_before(a: &str, b: &str) -> (r: bool)
    ensures
        r == before(a@, b@),
{
    let x = a.as_bytes();
    let y = b.as_bytes();
    let mut i: usize = 0;
    assert(x@.skip(0) =~= x@ && y@.skip(0) =~= y@);
    while i < x.len() && i < y.len()
        invariant
            i <= x.len(),
            i <= y.len(),
            x@ == encode_utf8(a@),
            y@ == encode_utf8(b@),
            bytes_before(x@, y@) == bytes_before(x@.skip(i as int), y@.skip(i as int)),
        decreases x.len() - i,
    {
        if x[i] != y[i] {
            return x[i] < y[i];
        }
        assert(x@.skip(i as int).drop_first() =~= x@.skip(i + 1));
        assert(y@.skip(i as int).drop_first() =~= y@.skip(i + 1));
        i = i + 1;
    }
    i < y.len()
}

} // verus!
