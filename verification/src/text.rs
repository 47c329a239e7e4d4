//! Text: splitting, joining, trimming and rendering of strings.
//!
//! A string is viewed as the sequence of its characters.
use vstd::prelude::*;

verus! {

/// The pieces of `s` between the occurrences of `sep`.
pub open spec fn split_on(s: Seq<char>, sep: char) -> Seq<Seq<char>>
    decreases s.len(),
{
    if s.len() == 0 {
        seq![Seq::empty()]
    } else {
        let front = split_on(s.drop_last(), sep);
        if s.last() == sep {
            front.push(Seq::empty())
        } else {
            front.drop_last().push(front.last().push(s.last()))
        }
    }
}

/// The parts one after another, with `sep` between each two of them.
pub open spec fn join_with(parts: Seq<Seq<char>>, sep: Seq<char>) -> Seq<char>
    decreases parts.len(),
{
    if parts.len() == 0 {
        Seq::empty()
    } else if parts.len() == 1 {
        parts[0]
    } else {
        join_with(parts.drop_last(), sep) + sep + parts.last()
    }
}

/// `s` without the run of `c` at its end.
pub open spec fn trim_end(s: Seq<char>, c: char) -> Seq<char>
    decreases s.len(),
{
    if s.len() > 0 && s.last() == c {
        trim_end(s.drop_last(), c)
    } else {
        s
    }
}

/// The bytes of a text.
pub open spec fn text_bytes(s: Seq<char>) -> Seq<u8> {
    vstd::utf8::encode_utf8(s)
}

/// The bytes of two texts one after another are those of the first and then those of the second.
pub proof fn lemma_bytes_of_both(a: Seq<char>, b: Seq<char>)
    ensures
        text_bytes(a + b) == text_bytes(a) + text_bytes(b),
    decreases a.len(),
{
    if a.len() == 0 {
        assert(a + b =~= b);
        assert(text_bytes(a) + text_bytes(b) =~= text_bytes(b));
    } else {
        assert((a + b).drop_first() =~= a.drop_first() + b);
        lemma_bytes_of_both(a.drop_first(), b);
        assert(text_bytes(a + b) =~= text_bytes(a) + text_bytes(b));
    }
}

/// `s` begins with the character `c`.
pub open spec fn begins_with(s: Seq<char>, c: char) -> bool {
    s.len() > 0 && s[0] == c
}

/// `s` ends with the character `c`.
pub open spec fn finishes_with(s: Seq<char>, c: char) -> bool {
    s.len() > 0 && s.last() == c
}

/// The digits in which numbers are written.
pub open spec fn digit_chars() -> Seq<char> {
    "0123456789abcdef"@
}

/// The numeral of `n` in base `base`, without leading zeros.
pub open spec fn numeral(n: nat, base: nat) -> Seq<char>
    decreases n,
{
    if base < 2 {
        Seq::empty()
    } else if n < base {
        seq![digit_chars()[n as int]]
    } else {
        proof {
            assert(n / base < n) by (nonlinear_arith)
                requires
                    n >= base,
                    base >= 2,
            ;
        }
        numeral(n / base, base).push(digit_chars()[(n % base) as int])
    }
}

/// The decimal numeral of an integer.
pub open spec fn decimal(i: int) -> Seq<char> {
    if i < 0 {
        seq!['-'] + numeral((-i) as nat, 10)
    } else {
        numeral(i as nat, 10)
    }
}

/// `s` filled up with zeros at the front until it has `width` characters.
pub open spec fn zero_padded(s: Seq<char>, width: nat) -> Seq<char> {
    if s.len() >= width {
        s
    } else {
        Seq::new((width - s.len()) as nat, |i: int| '0') + s
    }
}

/// The value of a decimal digit.
pub open spec fn digit_value(c: char) -> Option<nat> {
    if '0' <= c && c <= '9' {
        Some((c as int - '0' as int) as nat)
    } else {
        None
    }
}

/// The number that a non-empty run of decimal digits stands for.
pub open spec fn digits_value(s: Seq<char>) -> Option<nat>
    decreases s.len(),
{
    if s.len() == 0 {
        None
    } else {
        match digit_value(s.last()) {
            None => None,
            Some(d) => if s.len() == 1 {
                Some(d)
            } else {
                match digits_value(s.drop_last()) {
                    None => None,
                    Some(n) => Some(n * 10 + d),
                }
            },
        }
    }
}

/// The number written in `s`: decimal digits with at most one `+` in front, within 32 bits.
pub open spec fn u32_value(s: Seq<char>) -> Option<u32> {
    let digits = if begins_with(s, '+') { s.skip(1) } else { s };
    match digits_value(digits) {
        Some(n) => if n <= u32::MAX { Some(n as u32) } else { None },
        None => None,
    }
}

/// The truth value written in `s`.
pub open spec fn bool_value(s: Seq<char>) -> Option<bool> {
    if s == "true"@ {
        Some(true)
    } else if s == "false"@ {
        Some(false)
    } else {
        None
    }
}

/// Joining the pieces of a split with the separator gives the text back.
pub proof fn law_join_of_split(s: Seq<char>, sep: char)
    ensures
        join_with(split_on(s, sep), seq![sep]) == s,
        split_on(s, sep).len() > 0,
    decreases s.len(),
{
    if s.len() > 0 {
        let t = s.drop_last();
        law_join_of_split(t, sep);
        let front = split_on(t, sep);
        let all = split_on(s, sep);
        if s.last() == sep {
            assert(all.drop_last() =~= front);
            assert(all.last() == Seq::<char>::empty());
            assert(join_with(all, seq![sep]) =~= t.push(sep));
            assert(t.push(sep) =~= s);
        } else {
            assert(all.drop_last() =~= front.drop_last());
            if front.len() == 1 {
                assert(join_with(all, seq![sep]) =~= front[0].push(s.last()));
            } else {
                assert(join_with(all, seq![sep]) =~= (join_with(front.drop_last(), seq![sep])
                    + seq![sep] + front.last()).push(s.last()));
            }
            assert(t.push(s.last()) =~= s);
        }
    }
}

/// No piece of a split holds the separator.
pub proof fn law_split_pieces(s: Seq<char>, sep: char)
    ensures
        split_on(s, sep).len() > 0,
        forall|i: int, j: int|
            0 <= i < split_on(s, sep).len() && 0 <= j < split_on(s, sep)[i].len()
                ==> #[trigger] split_on(s, sep)[i][j] != sep,
    decreases s.len(),
{
    if s.len() > 0 {
        law_split_pieces(s.drop_last(), sep);
        let front = split_on(s.drop_last(), sep);
        let all = split_on(s, sep);
        assert forall|i: int, j: int|
            0 <= i < all.len() && 0 <= j < all[i].len() implies #[trigger] all[i][j] != sep by {
            if i < all.len() - 1 {
                assert(all[i] == front[i]);
                assert(front[i][j] != sep);
            } else if s.last() != sep {
                if j < front.last().len() {
                    assert(front[front.len() - 1][j] != sep);
                }
            }
        }
    }
}

/// A text without the separator is its own only piece.
pub proof fn law_split_without_separator(s: Seq<char>, sep: char)
    requires
        !s.contains(sep),
    ensures
        split_on(s, sep) == seq![s],
    decreases s.len(),
{
    if s.len() > 0 {
        let t = s.drop_last();
        assert forall|i: int| 0 <= i < t.len() implies t[i] != sep by {
            assert(s.contains(s[i]));
        }
        law_split_without_separator(t, sep);
        assert(s.contains(s.last()));
        assert(t.push(s.last()) =~= s);
        assert(split_on(s, sep) =~= seq![s]);
    } else {
        assert(s =~= Seq::empty());
    }
}

/// Splitting two texts with the separator between them splits each.
pub proof fn lemma_split_between(a: Seq<char>, b: Seq<char>, sep: char)
    ensures
        split_on(a + seq![sep] + b, sep) == split_on(a, sep) + split_on(b, sep),
        split_on(a, sep).len() > 0,
        split_on(b, sep).len() > 0,
    decreases b.len(),
{
    law_join_of_split(a, sep);
    law_join_of_split(b, sep);
    if b.len() == 0 {
        let whole = a + seq![sep] + b;
        assert(whole =~= a.push(sep));
        assert(whole.drop_last() =~= a);
        assert(split_on(b, sep) =~= seq![Seq::<char>::empty()]);
        assert(split_on(whole, sep) =~= split_on(a, sep) + split_on(b, sep));
    } else {
        let t = b.drop_last();
        lemma_split_between(a, t, sep);
        let whole = a + seq![sep] + b;
        assert(whole.drop_last() =~= a + seq![sep] + t);
        assert(whole.last() == b.last());
        let left = split_on(a, sep);
        let right = split_on(t, sep);
        assert((left + right).last() == right.last());
        assert(split_on(whole, sep) =~= left + split_on(b, sep));
    }
}

/// Reading a decimal numeral gives the number back.
pub proof fn law_numeral_read_back(n: nat)
    ensures
        digits_value(numeral(n, 10)) == Some(n),
        numeral(n, 10).len() > 0,
    decreases n,
{
    reveal_strlit("0123456789abcdef");
    let s = numeral(n, 10);
    if n < 10 {
        assert(s.last() == digit_chars()[n as int]);
    } else {
        law_numeral_read_back(n / 10);
        assert(s.drop_last() =~= numeral(n / 10, 10));
        assert(s.last() == digit_chars()[(n % 10) as int]);
    }
}

/// Joining goes from part to part: what is joined of two lists has the separator once more between
/// them.
pub proof fn law_join_of_both(a: Seq<Seq<char>>, b: Seq<Seq<char>>, sep: Seq<char>)
    requires
        a.len() > 0,
        b.len() > 0,
    ensures
        join_with(a + b, sep) == join_with(a, sep) + sep + join_with(b, sep),
        join_with(seq![a[0]], sep) == a[0],
        join_with(Seq::empty(), sep) == Seq::<char>::empty(),
    decreases b.len(),
{
    let both = a + b;
    assert(both.last() == b.last());
    if b.len() == 1 {
        assert(both.drop_last() =~= a);
        assert(join_with(b, sep) == b[0]);
    } else {
        assert(both.drop_last() =~= a + b.drop_last());
        law_join_of_both(a, b.drop_last(), sep);
        assert(join_with(both, sep) =~= join_with(a, sep) + sep + join_with(b, sep));
    }
}

/// Splitting what was joined gives the parts back, where none of them holds the separator.
pub proof fn law_split_of_join(parts: Seq<Seq<char>>, sep: char)
    requires
        parts.len() > 0,
        forall|i: int| 0 <= i < parts.len() ==> !(#[trigger] parts[i]).contains(sep),
    ensures
        split_on(join_with(parts, seq![sep]), sep) == parts,
    decreases parts.len(),
{
    law_split_without_separator(parts.last(), sep);
    if parts.len() == 1 {
        assert(seq![parts.last()] =~= parts);
    } else {
        let front = parts.drop_last();
        assert forall|i: int| 0 <= i < front.len() implies !(#[trigger] front[i]).contains(sep) by {
            assert(front[i] == parts[i]);
        }
        law_split_of_join(front, sep);
        lemma_split_between(join_with(front, seq![sep]), parts.last(), sep);
        assert(front + seq![parts.last()] =~= parts);
    }
}

/// Trimming takes the whole run of a character from the end of a text and nothing else.
pub proof fn law_trim_end(s: Seq<char>, c: char)
    ensures
        trim_end(s, c).is_prefix_of(s),
        !finishes_with(trim_end(s, c), c),
        forall|i: int| trim_end(s, c).len() <= i < s.len() ==> s[i] == c,
        !finishes_with(s, c) ==> trim_end(s, c) == s,
        trim_end(s.push(c), c) == trim_end(s, c),
    decreases s.len(),
{
    assert(s.push(c).drop_last() =~= s);
    if s.len() > 0 && s.last() == c {
        law_trim_end(s.drop_last(), c);
        assert(s.drop_last().push(c) =~= s);
        assert forall|i: int| trim_end(s, c).len() <= i < s.len() implies s[i] == c by {
            if i < s.len() - 1 {
                assert(s.drop_last()[i] == c);
            }
        }
    }
}

/// A digit of a numeral: the ten figures, then letters.
pub proof fn law_digits(d: int)
    requires
        0 <= d < 16,
    ensures
        d < 10 ==> digit_chars()[d] as int == '0' as int + d,
        d >= 10 ==> digit_chars()[d] as int == 'a' as int + (d - 10),
{
    reveal_strlit("0123456789abcdef");
}

/// A numeral is one digit for a number below the base, and one more digit for each power of it: in
/// any base the numeral of a multiple of the base and a digit is that of the factor and then the
/// digit. It never begins with a zero, unless it is the numeral of zero.
pub proof fn law_numeral_by_digits(n: nat, d: nat, base: nat)
    requires
        2 <= base <= 16,
        d < base,
    ensures
        numeral(d, base) == seq![digit_chars()[d as int]],
        n > 0 ==> numeral(n * base + d, base) == numeral(n, base).push(digit_chars()[d as int]),
{
    if n > 0 {
        let m = n * base + d;
        assert(m >= base) by (nonlinear_arith)
            requires
                n > 0,
                m == n * base + d,
        ;
        assert(m / base == n && m % base == d) by {
            vstd::arithmetic::div_mod::lemma_fundamental_div_mod_converse(
                m as int,
                base as int,
                n as int,
                d as int,
            );
        }
    }
}

/// A negative number is written with a minus in front of its amount.
pub proof fn law_decimal_sign(n: nat)
    ensures
        decimal(n as int) == numeral(n, 10),
        n > 0 ==> decimal(-(n as int)) == seq!['-'] + decimal(n as int),
{
}

/// Filling up with zeros gives at least the width, and keeps the text at the end.
pub proof fn law_zero_padded(s: Seq<char>, width: nat)
    ensures
        zero_padded(s, width).len() == if s.len() >= width {
            s.len()
        } else {
            width
        },
        s.is_suffix_of(zero_padded(s, width)),
        forall|i: int| 0 <= i < zero_padded(s, width).len() - s.len() ==> zero_padded(s, width)[i]
            == '0',
{
}

/// Digits stand for a number exactly where there are some and each is a figure; leading zeros make
/// no difference.
pub proof fn law_digits_value(s: Seq<char>)
    ensures
        digits_value(s) is Some <==> s.len() > 0 && forall|i: int|
            0 <= i < s.len() ==> '0' <= #[trigger] s[i] <= '9',
        s.len() > 0 ==> digits_value(seq!['0'] + s) == digits_value(s),
    decreases s.len(),
{
    if s.len() > 0 {
        let t = s.drop_last();
        let longer = seq!['0'] + s;
        law_digits_value(t);
        assert(longer.drop_last() =~= seq!['0'] + t);
        assert(longer.last() == s.last());
        if t.len() == 0 {
            assert(seq!['0'] + t =~= seq!['0']);
            reveal_with_fuel(digits_value, 2);
            assert(seq!['0'].drop_last().len() == 0);
            assert(digits_value(seq!['0']) == Some(0nat));
        } else {
            assert forall|i: int| 0 <= i < t.len() implies t[i] == s[i] by {}
            if digits_value(s) is Some {
                assert forall|i: int| 0 <= i < s.len() implies '0' <= #[trigger] s[i] <= '9' by {
                    if i < t.len() {
                        assert('0' <= t[i] <= '9');
                    }
                }
            }
            if forall|i: int| 0 <= i < s.len() ==> '0' <= #[trigger] s[i] <= '9' {
                assert forall|i: int| 0 <= i < t.len() implies '0' <= #[trigger] t[i] <= '9' by {
                    assert('0' <= s[i] <= '9');
                }
                assert('0' <= s[s.len() - 1] <= '9');
            }
        }
    }
}

/// Every number of 32 bits is read back from its numeral, with or without a plus in front; nothing
/// greater is a number of 32 bits, and neither is anything else than figures.
pub proof fn law_u32_read_back(n: u32, m: nat, s: Seq<char>)
    ensures
        u32_value(numeral(n as nat, 10)) == Some(n),
        u32_value(seq!['+'] + numeral(n as nat, 10)) == Some(n),
        m > u32::MAX ==> u32_value(numeral(m, 10)) is None,
        u32_value(Seq::empty()) is None,
        (exists|i: int| 0 < i < s.len() && !('0' <= #[trigger] s[i] <= '9')) ==> u32_value(s)
            is None,
        s.len() > 0 && s[0] != '+' && !('0' <= s[0] <= '9') ==> u32_value(s) is None,
{
    law_numeral_read_back(n as nat);
    law_numeral_read_back(m);
    law_digits_value(numeral(n as nat, 10));
    law_digits_value(numeral(m, 10));
    assert('0' <= numeral(n as nat, 10)[0] <= '9');
    assert('0' <= numeral(m, 10)[0] <= '9');
    assert((seq!['+'] + numeral(n as nat, 10)).skip(1) =~= numeral(n as nat, 10));
    let digits = if begins_with(s, '+') {
        s.skip(1)
    } else {
        s
    };
    law_digits_value(digits);
    if exists|i: int| 0 < i < s.len() && !('0' <= #[trigger] s[i] <= '9') {
        let i = choose|i: int| 0 < i < s.len() && !('0' <= #[trigger] s[i] <= '9');
        if begins_with(s, '+') {
            assert(digits[i - 1] == s[i]);
        } else {
            assert(digits[i] == s[i]);
        }
    }
    if s.len() > 0 && s[0] != '+' && !('0' <= s[0] <= '9') {
        assert(digits[0] == s[0]);
    }
}

/// Only the two words stand for truth values.
pub proof fn law_bool_words(s: Seq<char>)
    ensures
        bool_value("true"@) == Some(true),
        bool_value("false"@) == Some(false),
        bool_value(s) is Some <==> s == "true"@ || s == "false"@,
{
    reveal_strlit("true");
    reveal_strlit("false");
    assert("true"@.len() != "false"@.len());
}

/// The characters of a string.
pub fn chars_of(s: &str) -> (r: Vec<char>)
    ensures
        r@ == s@,
{
    let mut r: Vec<char> = Vec::new();
    for c in it: s.chars()
        invariant
            it.seq() == s@,
            r@ == s@.take(it.index() as int),
    {
        r.push(c);
        assert(r@ =~= s@.take(it.index() + 1));
    }
    assert(s@.take(s@.len() as int) =~= s@);
    r
}

/// The two texts are the same.
pub fn same_text(a: &str, b: &str) -> (r: bool)
    ensures
        r == (a@ == b@),
{
    a.to_owned() == b.to_owned()
}

/// Whether the bytes are those of the text.
pub fn bytes_are(bytes: &Vec<u8>, text: &str) -> (r: bool)
    ensures
        r == (bytes@ == text_bytes(text@)),
{
    let expected: &[u8] = text.as_bytes();
    if bytes.len() != expected.len() {
        return false;
    }
    let mut i: usize = 0;
    while i < bytes.len()
        invariant
            i <= bytes.len(),
            bytes@.len() == expected@.len(),
            expected@ == text_bytes(text@),
            forall|j: int| 0 <= j < i ==> bytes@[j] == expected@[j],
        decreases bytes.len() - i,
    {
        if bytes[i] != expected[i] {
            return false;
        }
        i += 1;
    }
    assert(bytes@ =~= expected@);
    true
}

/// One text after the other.
pub fn concat2(a: &str, b: &str) -> (r: String)
    ensures
        r@ == a@ + b@,
{
    a.to_owned().concat(b)
}

/// Three texts one after another.
pub fn concat3(a: &str, b: &str, c: &str) -> (r: String)
    ensures
        r@ == a@ + b@ + c@,
{
    a.to_owned().concat(b).concat(c)
}

/// Four texts one after another.
pub fn concat4(a: &str, b: &str, c: &str, d: &str) -> (r: String)
    ensures
        r@ == a@ + b@ + c@ + d@,
{
    a.to_owned().concat(b).concat(c).concat(d)
}

/// Whether the text holds the character.
pub fn contains_char(s: &str, c: char) -> (r: bool)
    ensures
        r == s@.contains(c),
{
    let chars: Vec<char> = chars_of(s);
    let mut i: usize = 0;
    while i < chars.len()
        invariant
            i <= chars.len(),
            chars@ == s@,
            forall|j: int| 0 <= j < i ==> chars@[j] != c,
        decreases chars.len() - i,
    {
        if chars[i] == c {
            assert(s@[i as int] == c);
            return true;
        }
        i += 1;
    }
    false
}

/// Whether the text begins with the character.
pub fn begins_with_char(s: &str, c: char) -> (r: bool)
    ensures
        r == begins_with(s@, c),
{
    !s.is_empty() && s.get_char(0) == c
}

/// Whether the text ends with the character.
pub fn finishes_with_char(s: &str, c: char) -> (r: bool)
    ensures
        r == finishes_with(s@, c),
{
    let n: usize = s.unicode_len();
    n > 0 && s.get_char(n - 1) == c
}

/// The text from character `from` on.
pub fn skip_chars(s: &str, from: usize) -> (r: String)
    requires
        from <= s@.len(),
    ensures
        r@ == s@.skip(from as int),
{
    let n: usize = s.unicode_len();
    let r: String = s.substring_char(from, n).to_owned();
    assert(r@ =~= s@.skip(from as int));
    r
}

/// The text without the run of `c` at its end.
pub fn trim_end_char(s: &str, c: char) -> (r: String)
    ensures
        r@ == trim_end(s@, c),
{
    let chars: Vec<char> = chars_of(s);
    let mut n: usize = chars.len();
    assert(s@.take(n as int) =~= s@);
    while n > 0 && chars[n - 1] == c
        invariant
            n <= chars.len(),
            chars@ == s@,
            trim_end(s@, c) == trim_end(s@.take(n as int), c),
        decreases n,
    {
        assert(s@.take(n as int).drop_last() =~= s@.take(n - 1));
        n -= 1;
    }
    let r: String = s.substring_char(0, n).to_owned();
    assert(r@ =~= s@.take(n as int));
    r
}

/// The pieces of the text between the occurrences of the separator.
pub fn split(s: &str, sep: char) -> (r: Vec<String>)
    ensures
        r.deep_view() == split_on(s@, sep),
        r@.len() > 0,
{
    let chars: Vec<char> = chars_of(s);
    let mut parts: Vec<String> = Vec::new();
    let mut start: usize = 0;
    let mut i: usize = 0;
    assert(s@.take(0) =~= Seq::empty());
    assert(s@.subrange(0, 0) =~= Seq::empty());
    assert(parts.deep_view().push(s@.subrange(0, 0)) =~= split_on(s@.take(0), sep));
    while i < chars.len()
        invariant
            start <= i <= chars.len(),
            chars@ == s@,
            parts.deep_view().push(s@.subrange(start as int, i as int)) == split_on(
                s@.take(i as int),
                sep,
            ),
        decreases chars.len() - i,
    {
        let ghost before = parts.deep_view();
        let ghost piece = s@.subrange(start as int, i as int);
        assert(s@.take(i + 1).drop_last() =~= s@.take(i as int));
        assert(s@.take(i + 1).last() == s@[i as int]);
        assert(before.push(piece).drop_last() =~= before);
        if chars[i] == sep {
            parts.push(s.substring_char(start, i).to_owned());
            start = i + 1;
            assert(parts.deep_view() =~= before.push(piece));
            assert(s@.subrange(i + 1, i + 1) =~= Seq::empty());
        } else {
            assert(s@.subrange(start as int, i + 1) =~= piece.push(s@[i as int]));
        }
        i += 1;
    }
    let ghost before = parts.deep_view();
    parts.push(s.substring_char(start, i).to_owned());
    assert(parts.deep_view() =~= before.push(s@.subrange(start as int, i as int)));
    assert(s@.take(i as int) =~= s@);
    parts
}

/// The parts one after another, with the separator between each two of them.
pub fn join(parts: &Vec<String>, sep: &str) -> (r: String)
    ensures
        r@ == join_with(parts.deep_view(), sep@),
{
    let mut r: String = String::new();
    let mut i: usize = 0;
    let ghost all = parts.deep_view();
    while i < parts.len()
        invariant
            i <= parts.len(),
            all == parts.deep_view(),
            r@ == join_with(all.take(i as int), sep@),
        decreases parts.len() - i,
    {
        assert(all.take(i + 1).drop_last() =~= all.take(i as int));
        assert(all[i as int] == parts@[i as int]@);
        if i > 0 {
            r.append(sep);
        }
        r.append(parts[i].as_str());
        assert(r@ =~= join_with(all.take(i + 1), sep@));
        i += 1;
    }
    assert(all.take(all.len() as int) =~= all);
    r
}

/// The digit of value `d` as a string.
fn digit(d: usize) -> (r: &'static str)
    requires
        d < 16,
    ensures
        r@ == seq![digit_chars()[d as int]],
{
    proof {
        reveal_strlit("0123456789abcdef");
    }
    let r: &'static str = "0123456789abcdef".substring_char(d, d + 1);
    assert(r@ =~= seq![digit_chars()[d as int]]);
    r
}

/// The numeral of a number in a base of at most sixteen.
pub fn numeral_of(n: u64, base: u64) -> (r: String)
    requires
        2 <= base <= 16,
    ensures
        r@ == numeral(n as nat, base as nat),
    decreases n,
{
    if n < base {
        digit(n as usize).to_owned()
    } else {
        assert(n / base < n) by (nonlinear_arith)
            requires
                n >= base,
                base >= 2,
        ;
        assert(n % base < base) by (nonlinear_arith)
            requires
                base >= 2,
        ;
        let front: String = numeral_of(n / base, base);
        let last: &'static str = digit((n % base) as usize);
        let r: String = front.concat(last);
        assert(r@ =~= numeral((n / base) as nat, base as nat).push(
            digit_chars()[(n % base) as int],
        ));
        r
    }
}

/// The decimal numeral of a number.
pub fn decimal_of(n: u64) -> (r: String)
    ensures
        r@ == decimal(n as int),
{
    numeral_of(n, 10)
}

/// The decimal numeral of a signed number.
pub fn decimal_of_i32(i: i32) -> (r: String)
    ensures
        r@ == decimal(i as int),
{
    if i < 0 {
        proof {
            reveal_strlit("-");
        }
        let n: i64 = -(i as i64);
        let r: String = concat2("-", numeral_of(n as u64, 10).as_str());
        assert(r@ =~= seq!['-'] + numeral((-(i as int)) as nat, 10));
        r
    } else {
        numeral_of(i as u64, 10)
    }
}

/// The lower case hexadecimal numeral of a number, with at least eight digits.
pub fn hexadecimal8(n: u32) -> (r: String)
    ensures
        r@ == zero_padded(numeral(n as nat, 16), 8),
{
    let digits: String = numeral_of(n as u64, 16);
    let len: usize = digits.as_str().unicode_len();
    let mut zeros: String = String::new();
    let mut missing: usize = if len < 8 { 8 - len } else { 0 };
    let ghost total = missing as nat;
    assert(zeros@ =~= Seq::new(0, |i: int| '0'));
    while missing > 0
        invariant
            missing <= total,
            zeros@ == Seq::new((total - missing) as nat, |i: int| '0'),
        decreases missing,
    {
        proof {
            reveal_strlit("0");
        }
        zeros.append("0");
        missing -= 1;
        assert(zeros@ =~= Seq::new((total - missing) as nat, |i: int| '0'));
    }
    let r: String = zeros.concat(digits.as_str());
    assert(r@ =~= zero_padded(numeral(n as nat, 16), 8));
    r
}

/// A prefix of digits never stands for more than the whole.
proof fn lemma_digits_prefix(s: Seq<char>, k: int)
    requires
        0 < k <= s.len(),
        digits_value(s) is Some,
    ensures
        digits_value(s.take(k)) is Some,
        digits_value(s.take(k))->0 <= digits_value(s)->0,
    decreases s.len() - k,
{
    if k == s.len() {
        assert(s.take(k) =~= s);
    } else {
        lemma_digits_prefix(s, k + 1);
        let t = s.take(k + 1);
        assert(t.drop_last() =~= s.take(k));
    }
}

/// Reads an unsigned number: decimal digits with at most one `+` in front.
pub fn parse_u32(s: &str) -> (r: Option<u32>)
    ensures
        r == u32_value(s@),
{
    let chars: Vec<char> = chars_of(s);
    let start: usize = if begins_with_char(s, '+') { 1 } else { 0 };
    let ghost digits = if begins_with(s@, '+') { s@.skip(1) } else { s@ };
    assert(digits =~= s@.skip(start as int));
    if chars.len() == start {
        return None;
    }
    let mut n: u64 = 0;
    let mut i: usize = start;
    while i < chars.len()
        invariant
            start <= i <= chars.len(),
            chars@ == s@,
            digits == s@.skip(start as int),
            digits.len() > 0,
            start < chars.len(),
            u32_value(s@) == (match digits_value(digits) {
                Some(v) => if v <= u32::MAX { Some(v as u32) } else { None },
                None => None,
            }),
            n <= u32::MAX,
            i == start ==> n == 0,
            i > start ==> digits_value(digits.take(i - start)) == Some(n as nat),
        decreases chars.len() - i,
    {
        let c: char = chars[i];
        let ghost k = i - start + 1;
        let ghost head = digits.take(k);
        assert(head.drop_last() =~= digits.take(k - 1));
        assert(head.last() == c);
        if c < '0' || c > '9' {
            assert(digits_value(head) is None);
            assert(digits_value(digits) is None) by {
                if digits_value(digits) is Some {
                    lemma_digits_prefix(digits, k);
                }
            }
            return None;
        }
        let d: u64 = (c as u32 - '0' as u32) as u64;
        n = n * 10 + d;
        assert(digits_value(head) == Some(n as nat));
        if n > 4294967295 {
            assert(digits_value(digits) matches Some(v) ==> v > u32::MAX) by {
                if digits_value(digits) is Some {
                    lemma_digits_prefix(digits, k);
                }
            }
            return None;
        }
        i += 1;
    }
    assert(digits.take(digits.len() as int) =~= digits);
    Some(n as u32)
}

/// Reads a truth value: `true` or `false`.
pub fn parse_bool(s: &str) -> (r: Option<bool>)
    ensures
        r == bool_value(s@),
{
    if same_text(s, "true") {
        Some(true)
    } else if same_text(s, "false") {
        proof {
            reveal_strlit("true");
            reveal_strlit("false");
        }
        Some(false)
    } else {
        None
    }
}

/// A copy of a list of bytes.
pub fn copy_bytes(v: &Vec<u8>) -> (r: Vec<u8>)
    ensures
        r@ == v@,
{
    let r: Vec<u8> = v.clone();
    assert(r@ =~= v@);
    r
}

/// A copy of an optional text.
pub fn copy_option(o: &Option<String>) -> (r: Option<String>)
    ensures
        r.deep_view() == o.deep_view(),
{
    match o {
        Some(s) => Some(s.clone()),
        None => None,
    }
}

/// A copy of a list of texts.
pub fn copy_list(v: &Vec<String>) -> (r: Vec<String>)
    ensures
        r.deep_view() == v.deep_view(),
{
    let mut r: Vec<String> = Vec::new();
    let mut i: usize = 0;
    while i < v.len()
        invariant
            i <= v.len(),
            r.deep_view() == v.deep_view().take(i as int),
        decreases v.len() - i,
    {
        let ghost before = r.deep_view();
        r.push(v[i].clone());
        assert(r.deep_view() =~= before.push(v@[i as int]@));
        assert(r.deep_view() =~= v.deep_view().take(i + 1));
        i += 1;
    }
    assert(v.deep_view().take(v@.len() as int) =~= v.deep_view());
    r
}

/// Whether the list holds the text.
pub fn list_contains(v: &Vec<String>, s: &str) -> (r: bool)
    ensures
        r == v.deep_view().contains(s@),
{
    let mut i: usize = 0;
    while i < v.len()
        invariant
            i <= v.len(),
            forall|j: int| 0 <= j < i ==> v.deep_view()[j] != s@,
        decreases v.len() - i,
    {
        assert(v.deep_view()[i as int] == v@[i as int]@);
        if same_text(v[i].as_str(), s) {
            return true;
        }
        i += 1;
    }
    false
}

} // verus!
