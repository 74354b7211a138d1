//! Text primitives: decimal and UUID rendering, ordering and case rules on
//! strings, each given an exact meaning over `Seq<char>`.

use vstd::prelude::*;

verus! {

/// The ASCII digit for a value below ten.
pub open spec fn digit_char(d: nat) -> char {
    if d == 0 { '0' } else if d == 1 { '1' } else if d == 2 { '2' } else if d == 3 { '3' }
    else if d == 4 { '4' } else if d == 5 { '5' } else if d == 6 { '6' } else if d == 7 { '7' }
    else if d == 8 { '8' } else { '9' }
}

/// Decimal notation of a natural number, without sign or leading zeros.
pub open spec fn decimal_text(n: nat) -> Seq<char>
    decreases n,
{
    if n < 10 {
        seq![digit_char(n)]
    } else {
        decimal_text(n / 10).push(digit_char(n % 10))
    }
}

/// The number a text of decimal digits denotes.
pub open spec fn digits_value(s: Seq<char>) -> int
    decreases s.len(),
{
    if s.len() == 0 {
        0
    } else {
        digits_value(s.drop_last()) * 10 + ((s.last() as u32) - ('0' as u32))
    }
}

proof fn lemma_digit_char_value(d: nat)
    requires
        d < 10,
    ensures
        '0' <= digit_char(d) <= '9',
        (digit_char(d) as u32) - ('0' as u32) == d,
        d != 0 ==> digit_char(d) != '0',
{
    assert('0' as u32 == 48);
    if d == 0 { assert('0' as u32 == 48); }
    else if d == 1 { assert('1' as u32 == 49); }
    else if d == 2 { assert('2' as u32 == 50); }
    else if d == 3 { assert('3' as u32 == 51); }
    else if d == 4 { assert('4' as u32 == 52); }
    else if d == 5 { assert('5' as u32 == 53); }
    else if d == 6 { assert('6' as u32 == 54); }
    else if d == 7 { assert('7' as u32 == 55); }
    else if d == 8 { assert('8' as u32 == 56); }
    else { assert('9' as u32 == 57); }
}

/// The decimal text of a number is made of decimal digits, has no leading
/// zero, and reads back as the number.
pub proof fn lemma_decimal_text_reads_back(n: nat)
    ensures
        decimal_text(n).len() >= 1,
        n >= 10 ==> decimal_text(n).len() >= 2,
        forall|i: int| 0 <= i < decimal_text(n).len() ==> '0' <= #[trigger] decimal_text(n)[i] <= '9',
        decimal_text(n).len() > 1 ==> decimal_text(n)[0] != '0',
        digits_value(decimal_text(n)) == n,
    decreases n,
{
    if n < 10 {
        lemma_digit_char_value(n);
        let t = decimal_text(n);
        assert(t.drop_last() =~= Seq::<char>::empty());
        assert(digits_value(t.drop_last()) == 0);
        assert(digits_value(t) == digits_value(t.drop_last()) * 10 + ((t.last() as u32) - ('0' as u32)));
    } else {
        lemma_decimal_text_reads_back(n / 10);
        lemma_digit_char_value(n % 10);
        let t = decimal_text(n);
        let p = decimal_text(n / 10);
        assert(t == p.push(digit_char(n % 10)));
        assert(t.drop_last() =~= p);
        assert(n == (n / 10) * 10 + n % 10);
        assert forall|i: int| 0 <= i < t.len() implies '0' <= #[trigger] t[i] <= '9' by {
            if i < p.len() {
                assert(t[i] == p[i]);
            }
        }
        assert(t[0] == p[0]);
        if p.len() == 1 {
            assert(n / 10 < 10);
            lemma_digit_char_value(n / 10);
        }
        assert(digits_value(t) == digits_value(p) * 10 + ((t.last() as u32) - ('0' as u32)));
    }
}

/// Lower-case hexadecimal digit for a value below sixteen.
pub open spec fn hex_char(d: nat) -> char {
    if d < 10 { digit_char(d) }
    else if d == 10 { 'a' } else if d == 11 { 'b' } else if d == 12 { 'c' }
    else if d == 13 { 'd' } else if d == 14 { 'e' } else { 'f' }
}

/// The lowest `count` hexadecimal digits of `v`, most significant first.
pub open spec fn hex_digits(v: nat, count: nat) -> Seq<char>
    decreases count,
{
    if count == 0 {
        Seq::empty()
    } else {
        hex_digits(v / 16, (count - 1) as nat).push(hex_char(v % 16))
    }
}

/// The value of a lower-case hexadecimal digit.
pub open spec fn hex_digit_value(c: char) -> int {
    if '0' <= c <= '9' {
        (c as u32) - ('0' as u32)
    } else {
        (c as u32) - ('a' as u32) + 10
    }
}

/// Whether a character is a lower-case hexadecimal digit.
pub open spec fn is_hex_digit(c: char) -> bool {
    ('0' <= c <= '9') || ('a' <= c <= 'f')
}

/// The number a text of hexadecimal digits denotes.
pub open spec fn hex_value(s: Seq<char>) -> int
    decreases s.len(),
{
    if s.len() == 0 {
        0
    } else {
        hex_value(s.drop_last()) * 16 + hex_digit_value(s.last())
    }
}

/// Sixteen to the given power.
pub open spec fn sixteen_to(count: nat) -> nat
    decreases count,
{
    if count == 0 {
        1
    } else {
        16 * sixteen_to((count - 1) as nat)
    }
}

proof fn lemma_hex_char_value(d: nat)
    requires
        d < 16,
    ensures
        is_hex_digit(hex_char(d)),
        hex_digit_value(hex_char(d)) == d,
{
    if d < 10 {
        lemma_digit_char_value(d);
    }
}

/// The lowest `count` hexadecimal digits of a number are `count` lower-case
/// hexadecimal digits that read back as the number modulo sixteen to the
/// `count`.
pub proof fn lemma_hex_digits_read_back(v: nat, count: nat)
    ensures
        hex_digits(v, count).len() == count,
        forall|i: int| 0 <= i < count ==> is_hex_digit(#[trigger] hex_digits(v, count)[i]),
        sixteen_to(count) > 0,
        hex_value(hex_digits(v, count)) == v % sixteen_to(count),
    decreases count,
{
    if count > 0 {
        let c1 = (count - 1) as nat;
        lemma_hex_digits_read_back(v / 16, c1);
        lemma_hex_char_value(v % 16);
        let t = hex_digits(v, count);
        let p = hex_digits(v / 16, c1);
        assert(t.drop_last() =~= p);
        assert forall|i: int| 0 <= i < count implies is_hex_digit(#[trigger] t[i]) by {
            if i < c1 {
                assert(t[i] == p[i]);
            }
        }
        vstd::arithmetic::div_mod::lemma_mod_breakdown(v as int, 16, sixteen_to(c1) as int);
        assert(hex_value(t) == hex_value(p) * 16 + hex_digit_value(t.last()));
        assert(v % sixteen_to(count) == 16 * ((v / 16) % sixteen_to(c1)) + v % 16);
    }
}

/// The text of a UUID is 36 characters: lower-case hexadecimal digits with
/// hyphens at positions 8, 13, 18 and 23; its 32 digits, read in order,
/// give back the UUID's value.
pub proof fn lemma_uuid_text_layout(v: nat)
    requires
        v < sixteen_to(32),
    ensures
        uuid_text(v).len() == 36,
        forall|i: int|
            0 <= i < 36 ==> (#[trigger] uuid_text(v)[i] == '-' <==> (i == 8 || i == 13 || i == 18 || i == 23)),
        forall|i: int|
            0 <= i < 36 && i != 8 && i != 13 && i != 18 && i != 23 ==> is_hex_digit(#[trigger] uuid_text(v)[i]),
        hex_value(uuid_text(v).subrange(0, 8) + uuid_text(v).subrange(9, 13) + uuid_text(v).subrange(14, 18)
            + uuid_text(v).subrange(19, 23) + uuid_text(v).subrange(24, 36)) == v,
{
    lemma_hex_digits_read_back(v, 32);
    let h = hex_digits(v, 32);
    let u = uuid_text(v);
    assert(u.len() == 36);
    assert forall|i: int| 0 <= i < 36 implies (#[trigger] u[i] == '-' <==> (i == 8 || i == 13 || i == 18 || i == 23)) by {
        if i < 8 {
            assert(u[i] == h[i]);
        } else if 8 < i < 13 {
            assert(u[i] == h[i - 1]);
        } else if 13 < i < 18 {
            assert(u[i] == h[i - 2]);
        } else if 18 < i < 23 {
            assert(u[i] == h[i - 3]);
        } else if 23 < i {
            assert(u[i] == h[i - 4]);
        }
    }
    assert forall|i: int| 0 <= i < 36 && i != 8 && i != 13 && i != 18 && i != 23 implies is_hex_digit(#[trigger] u[i]) by {
        if i < 8 {
            assert(u[i] == h[i]);
        } else if 8 < i < 13 {
            assert(u[i] == h[i - 1]);
        } else if 13 < i < 18 {
            assert(u[i] == h[i - 2]);
        } else if 18 < i < 23 {
            assert(u[i] == h[i - 3]);
        } else {
            assert(u[i] == h[i - 4]);
        }
    }
    assert(u.subrange(0, 8) + u.subrange(9, 13) + u.subrange(14, 18) + u.subrange(19, 23) + u.subrange(24, 36) =~= h);
    vstd::arithmetic::div_mod::lemma_small_mod(v, sixteen_to(32));
}

/// The hyphenated lower-case form of a 128-bit UUID value:
/// 32 hex digits grouped 8-4-4-4-12.
pub open spec fn uuid_text(v: nat) -> Seq<char> {
    let h = hex_digits(v, 32);
    h.subrange(0, 8) + seq!['-'] + h.subrange(8, 12) + seq!['-'] + h.subrange(12, 16)
        + seq!['-'] + h.subrange(16, 20) + seq!['-'] + h.subrange(20, 32)
}

/// Renders an unsigned integer in decimal (std `ToString` for `u64`).
#[verifier::external_body]
pub(crate) fn u64_to_string(n: u64) -> (s: String)
    ensures
        s@ == decimal_text(n as nat),
{
    n.to_string()
}

/// Renders a UUID given by its 128-bit value in hyphenated lower-case form,
/// as `uuid::Uuid::from_u128(v).to_string()` does.
#[verifier::external_body]
pub(crate) fn uuid_to_string(v: u128) -> (s: String)
    ensures
        s@ == uuid_text(v as nat),
{
    uuid::Uuid::from_u128(v).to_string()
}

/// Renders a boolean as `true` or `false`.
pub fn bool_to_string(b: bool) -> (s: String)
    ensures
        s@ == (if b { "true"@ } else { "false"@ }),
{
    if b {
        String::from_str("true")
    } else {
        String::from_str("false")
    }
}


/// Strict lexicographic order on character sequences, comparing characters
/// by code point; a proper prefix comes first.
pub open spec fn chars_lt(a: Seq<char>, b: Seq<char>) -> bool
    decreases a.len(),
{
    if a.len() == 0 {
        b.len() > 0
    } else if b.len() == 0 {
        false
    } else if a[0] != b[0] {
        a[0] < b[0]
    } else {
        chars_lt(a.drop_first(), b.drop_first())
    }
}

/// No sequence precedes itself.
pub proof fn lemma_chars_lt_irreflexive(a: Seq<char>)
    ensures
        !chars_lt(a, a),
    decreases a.len(),
{
    if a.len() > 0 {
        lemma_chars_lt_irreflexive(a.drop_first());
    }
}

/// Texts are ordered lexicographically by character: a text comes before
/// another exactly when it is a proper prefix of it, or at the first
/// position where they differ its character is the smaller.
pub proof fn lemma_chars_lt_is_lexicographic(a: Seq<char>, b: Seq<char>)
    ensures
        chars_lt(a, b) <==> ((a.len() < b.len() && b.subrange(0, a.len() as int) == a) || exists|k: int|
            0 <= k < a.len() && k < b.len() && a.subrange(0, k) == b.subrange(0, k) && #[trigger] a[k] < b[k]),
    decreases a.len(),
{
    if a.len() == 0 {
        assert(b.subrange(0, 0) =~= a);
    } else if b.len() == 0 {
    } else if a[0] != b[0] {
        if a[0] < b[0] {
            assert(a.subrange(0, 0) =~= b.subrange(0, 0));
        }
        if a.len() < b.len() && b.subrange(0, a.len() as int) == a {
            assert(b.subrange(0, a.len() as int)[0] == b[0]);
        }
        if exists|k: int| 0 <= k < a.len() && k < b.len() && a.subrange(0, k) == b.subrange(0, k) && #[trigger] a[k] < b[k] {
            let k = choose|k: int| 0 <= k < a.len() && k < b.len() && a.subrange(0, k) == b.subrange(0, k) && #[trigger] a[k] < b[k];
            if k > 0 {
                assert(a.subrange(0, k)[0] == b.subrange(0, k)[0]);
            }
        }
    } else {
        let a1 = a.drop_first();
        let b1 = b.drop_first();
        lemma_chars_lt_is_lexicographic(a1, b1);
        if a1.len() < b1.len() && b1.subrange(0, a1.len() as int) == a1 {
            assert forall|j: int| 0 <= j < a.len() implies #[trigger] b.subrange(0, a.len() as int)[j] == a[j] by {
                if j > 0 {
                    assert(b1.subrange(0, a1.len() as int)[j - 1] == a1[j - 1]);
                }
            }
            assert(b.subrange(0, a.len() as int) =~= a);
        }
        if a.len() < b.len() && b.subrange(0, a.len() as int) == a {
            assert(b1.subrange(0, a1.len() as int) =~= a1);
        }
        if exists|k: int| 0 <= k < a1.len() && k < b1.len() && a1.subrange(0, k) == b1.subrange(0, k) && #[trigger] a1[k] < b1[k] {
            let k = choose|k: int| 0 <= k < a1.len() && k < b1.len() && a1.subrange(0, k) == b1.subrange(0, k) && #[trigger] a1[k] < b1[k];
            assert(a.subrange(0, k + 1) =~= seq![a[0]] + a1.subrange(0, k));
            assert(b.subrange(0, k + 1) =~= seq![b[0]] + b1.subrange(0, k));
            assert(a[k + 1] == a1[k]);
        }
        if exists|k: int| 0 <= k < a.len() && k < b.len() && a.subrange(0, k) == b.subrange(0, k) && #[trigger] a[k] < b[k] {
            let k = choose|k: int| 0 <= k < a.len() && k < b.len() && a.subrange(0, k) == b.subrange(0, k) && #[trigger] a[k] < b[k];
            assert(k > 0);
            assert(a1.subrange(0, k - 1) =~= a.subrange(0, k).drop_first());
            assert(b1.subrange(0, k - 1) =~= b.subrange(0, k).drop_first());
            assert(a1[k - 1] == a[k]);
        }
    }
}

/// The order is transitive.
pub proof fn lemma_chars_lt_transitive(a: Seq<char>, b: Seq<char>, c: Seq<char>)
    requires
        chars_lt(a, b),
        chars_lt(b, c),
    ensures
        chars_lt(a, c),
    decreases a.len(),
{
    if a.len() > 0 && b.len() > 0 && c.len() > 0 {
        if a[0] == b[0] && b[0] == c[0] {
            lemma_chars_lt_transitive(a.drop_first(), b.drop_first(), c.drop_first());
        }
    }
}

/// Any two distinct sequences are ordered one way or the other.
pub proof fn lemma_chars_lt_total(a: Seq<char>, b: Seq<char>)
    requires
        a != b,
    ensures
        chars_lt(a, b) || chars_lt(b, a),
    decreases a.len(),
{
    if a.len() > 0 && b.len() > 0 {
        if a[0] == b[0] {
            if a.drop_first() == b.drop_first() {
                assert(a =~= seq![a[0]] + a.drop_first());
                assert(b =~= seq![b[0]] + b.drop_first());
            }
            lemma_chars_lt_total(a.drop_first(), b.drop_first());
        }
    } else if a.len() == 0 && b.len() == 0 {
        assert(a =~= b);
    }
}

/// The order is asymmetric.
pub proof fn lemma_chars_lt_asymmetric(a: Seq<char>, b: Seq<char>)
    requires
        chars_lt(a, b),
    ensures
        !chars_lt(b, a),
{
    if chars_lt(b, a) {
        lemma_chars_lt_transitive(a, b, a);
        lemma_chars_lt_irreflexive(a);
    }
}

/// Compares two strings with std's `<` on `str`, which orders strings
/// lexicographically by their UTF-8 bytes, that is, by code points.
#[verifier::external_body]
pub(crate) fn str_less(a: &str, b: &str) -> (r: bool)
    ensures
        r == chars_lt(a@, b@),
{
    a < b
}

/// Tests two strings for equality with std's `==` on `str`.
#[verifier::external_body]
pub(crate) fn str_eq(a: &str, b: &str) -> (r: bool)
    ensures
        r == (a@ == b@),
{
    a == b
}

/// ASCII lower-casing of one character; other characters are unchanged.
pub open spec fn ascii_lower(c: char) -> char {
    if 'A' <= c && c <= 'Z' {
        ((c as u32) + 32) as char
    } else {
        c
    }
}

/// Equality up to ASCII case, as std's `eq_ignore_ascii_case` defines it.
pub open spec fn chars_eq_ignore_ascii_case(a: Seq<char>, b: Seq<char>) -> bool {
    &&& a.len() == b.len()
    &&& forall|i: int| 0 <= i < a.len() ==> ascii_lower(#[trigger] a[i]) == ascii_lower(b[i])
}

/// ASCII case folding turns each upper-case ASCII letter into its
/// lower-case letter and leaves every other character alone; equality up to
/// ASCII case is an equivalence.
pub proof fn lemma_ascii_case_folding(c: char, a: Seq<char>, b: Seq<char>, d: Seq<char>)
    ensures
        'A' <= c <= 'Z' ==> 'a' <= ascii_lower(c) <= 'z' && (ascii_lower(c) as u32) - ('a' as u32) == (c as u32) - ('A' as u32),
        !('A' <= c <= 'Z') ==> ascii_lower(c) == c,
        chars_eq_ignore_ascii_case(a, a),
        chars_eq_ignore_ascii_case(a, b) ==> chars_eq_ignore_ascii_case(b, a),
        chars_eq_ignore_ascii_case(a, b) && chars_eq_ignore_ascii_case(b, d) ==> chars_eq_ignore_ascii_case(a, d),
        chars_eq_ignore_ascii_case(a, b) ==> a.len() == b.len(),
{
    if chars_eq_ignore_ascii_case(a, b) && chars_eq_ignore_ascii_case(b, d) {
        assert forall|i: int| 0 <= i < a.len() implies ascii_lower(#[trigger] a[i]) == ascii_lower(d[i]) by {
            assert(ascii_lower(a[i]) == ascii_lower(b[i]));
            assert(ascii_lower(b[i]) == ascii_lower(d[i]));
        }
    }
}

/// std's `str::eq_ignore_ascii_case`.
#[verifier::external_body]
pub(crate) fn eq_ignore_ascii_case(a: &str, b: &str) -> (r: bool)
    ensures
        r == chars_eq_ignore_ascii_case(a@, b@),
{
    a.eq_ignore_ascii_case(b)
}

/// What std's `str::to_uppercase` returns for a string: the Unicode
/// upper-case mapping of each character.
pub uninterp spec fn unicode_upper(s: Seq<char>) -> Seq<char>;

/// std's `str::to_uppercase`. The Unicode case tables are not restated here:
/// the result is named by `unicode_upper`, a function of the text alone.
#[verifier::external_body]
pub(crate) fn to_uppercase(s: &str) -> (r: String)
    ensures
        r@ == unicode_upper(s@),
{
    s.to_uppercase()
}

/// What std's `str::to_lowercase` returns for a string: the Unicode
/// lower-case mapping of each character.
pub uninterp spec fn unicode_lower(s: Seq<char>) -> Seq<char>;

/// std's `str::to_lowercase`. The Unicode case tables are not restated here:
/// the result is named by `unicode_lower`, a function of the text alone.
#[verifier::external_body]
pub(crate) fn to_lowercase(s: &str) -> (r: String)
    ensures
        r@ == unicode_lower(s@),
{
    s.to_lowercase()
}


/// Parts joined by a separator.
pub open spec fn joined(parts: Seq<Seq<char>>, sep: Seq<char>) -> Seq<char>
    decreases parts.len(),
{
    if parts.len() == 0 {
        Seq::empty()
    } else if parts.len() == 1 {
        parts[0]
    } else {
        joined(parts.drop_last(), sep) + sep + parts.last()
    }
}

/// Joining two nonempty runs of parts is joining each and putting the
/// separator between them; one part alone is itself.
pub proof fn lemma_joined_concat(a: Seq<Seq<char>>, b: Seq<Seq<char>>, sep: Seq<char>)
    requires
        a.len() > 0,
        b.len() > 0,
    ensures
        joined(a + b, sep) == joined(a, sep) + sep + joined(b, sep),
        joined(seq![a[0]], sep) == a[0],
    decreases b.len(),
{
    assert(seq![a[0]].len() == 1);
    if b.len() == 1 {
        assert((a + b).drop_last() =~= a);
        assert((a + b).last() == b[0]);
    } else {
        lemma_joined_concat(a, b.drop_last(), sep);
        assert((a + b).drop_last() =~= a + b.drop_last());
        assert((a + b).last() == b.last());
        assert(joined(a + b, sep) == joined(a + b.drop_last(), sep) + sep + b.last());
        assert(joined(b, sep) == joined(b.drop_last(), sep) + sep + b.last());
        assert(joined(a, sep) + sep + joined(b.drop_last(), sep) + sep + b.last() =~= joined(a, sep) + sep + (joined(
            b.drop_last(),
            sep,
        ) + sep + b.last()));
    }
}

/// Joins texts with a separator, as std's `join` on a slice of strings.
pub fn join_texts(parts: &Vec<String>, sep: &str) -> (r: String)
    ensures
        r@ == joined(parts.deep_view(), sep@),
{
    let mut r = String::new();
    let mut i: usize = 0;
    while i < parts.len()
        invariant
            i <= parts.len(),
            r@ == joined(parts.deep_view().take(i as int), sep@),
        decreases parts.len() - i,
    {
        if i > 0 {
            r.append(sep);
        }
        r.append(parts[i].as_str());
        proof {
            assert(parts.deep_view().take(i + 1).drop_last() =~= parts.deep_view().take(i as int));
            if i == 0 {
                assert(r@ =~= parts.deep_view().take(1)[0]);
            }
        }
        i += 1;
    }
    proof {
        assert(parts.deep_view().take(parts.len() as int) =~= parts.deep_view());
    }
    r
}

/// Concatenation of three texts.
pub fn concat3(a: &str, b: &str, c: &str) -> (r: String)
    ensures
        r@ == a@ + b@ + c@,
{
    let mut r = String::from_str(a);
    r.append(b);
    r.append(c);
    r
}

/// Whether two texts are equal after Unicode case folding, as the unicase
/// crate decides it.
pub uninterp spec fn unicase_equal(a: Seq<char>, b: Seq<char>) -> bool;

/// Whether every character of a text is ASCII.
pub open spec fn all_ascii(s: Seq<char>) -> bool {
    forall|i: int| 0 <= i < s.len() ==> (#[trigger] s[i] as u32) < 128
}

/// `unicase::eq`: equality up to Unicode case folding. Its source compares
/// two all-ASCII texts with `eq_ignore_ascii_case` and other texts by their
/// folded characters, so a text is equal to itself; nothing more of the
/// folding is stated.
#[verifier::external_body]
pub(crate) fn unicase_eq(a: &str, b: &str) -> (r: bool)
    ensures
        r == unicase_equal(a@, b@),
        all_ascii(a@) && all_ascii(b@) ==> r == chars_eq_ignore_ascii_case(a@, b@),
        a@ == b@ ==> r,
{
    unicase::eq(a, b)
}

} // verus!
