//! Words and decimal numerals in plain text.
use vstd::prelude::*;

verus! {

/// A character with the Unicode property `White_Space`.
pub open spec fn is_blank(c: char) -> bool {
    ||| '\u{9}' <= c <= '\u{d}'
    ||| c == '\u{20}'
    ||| c == '\u{85}'
    ||| c == '\u{a0}'
    ||| c == '\u{1680}'
    ||| '\u{2000}' <= c <= '\u{200a}'
    ||| c == '\u{2028}'
    ||| c == '\u{2029}'
    ||| c == '\u{202f}'
    ||| c == '\u{205f}'
    ||| c == '\u{3000}'
}

/// No character of `s` is blank.
pub open spec fn unbroken(s: Seq<char>) -> bool {
    forall|i: int| 0 <= i < s.len() ==> !is_blank(#[trigger] s[i])
}

/// The maximal runs of characters that are not blank, in order.
pub open spec fn words(s: Seq<char>) -> Seq<Seq<char>>
    decreases s.len(),
{
    if s.len() == 0 {
        Seq::empty()
    } else {
        let before = s.drop_last();
        let c = s.last();
        if is_blank(c) {
            words(before)
        } else if before.len() == 0 || is_blank(before.last()) {
            words(before).push(seq![c])
        } else {
            words(before).drop_last().push(words(before).last().push(c))
        }
    }
}

/// Tells whether `c` has the Unicode property `White_Space`.
pub fn blank(c: char) -> (r: bool)
    ensures
        r == is_blank(c),
        r <==> {
            ||| 9 <= c as int <= 13
            ||| c as int == 32
            ||| c as int == 133
            ||| c as int == 160
            ||| c as int == 5760
            ||| 8192 <= c as int <= 8202
            ||| c as int == 8232
            ||| c as int == 8233
            ||| c as int == 8239
            ||| c as int == 8287
            ||| c as int == 12288
        },
{
    ('\u{9}' <= c && c <= '\u{d}') || c == '\u{20}' || c == '\u{85}' || c == '\u{a0}' || c
        == '\u{1680}' || ('\u{2000}' <= c && c <= '\u{200a}') || c == '\u{2028}' || c
        == '\u{2029}' || c == '\u{202f}' || c == '\u{205f}' || c == '\u{3000}'
}

/// The text of each slice in `parts`.
pub open spec fn views(parts: Seq<&str>) -> Seq<Seq<char>> {
    parts.map_values(|p: &str| p@)
}

/// Splits `s` at its blanks.
pub fn split_words<'a>(s: &'a str) -> (parts: Vec<&'a str>)
    ensures
        views(parts@) == words(s@),
        parts@.len() == words(s@).len(),
        forall|i: int| 0 <= i < parts@.len() ==> (#[trigger] parts@[i])@ == words(s@)[i],
{
    let mut parts: Vec<&'a str> = Vec::new();
    let len: usize = s.unicode_len();
    let mut i: usize = 0;
    let mut start: Option<usize> = None;
    proof {
        assert(s@.take(0) =~= Seq::<char>::empty());
        assert(views(parts@) =~= words(s@.take(0)));
    }
    for c in it: s.chars()
        invariant
            len == s@.len(),
            i == it.index(),
            it.seq() == s@,
            match start {
                None => {
                    &&& views(parts@) == words(s@.take(i as int))
                    &&& i > 0 ==> is_blank(s@[i - 1])
                },
                Some(a) => {
                    &&& a < i <= len
                    &&& !is_blank(s@[i - 1])
                    &&& words(s@.take(i as int)) == views(parts@).push(
                        s@.subrange(a as int, i as int),
                    )
                },
            },
    {
        assert(c == s@[i as int]);
        let ghost next = s@.take(i + 1);
        assert(next.drop_last() =~= s@.take(i as int));
        assert(next.last() == c);
        if blank(c) {
            if let Some(a) = start {
                let word: &'a str = s.substring_char(a, i);
                let ghost earlier = parts@;
                parts.push(word);
                assert(views(parts@) =~= views(earlier).push(word@));
            }
            start = None;
        } else if let Some(a) = start {
            assert(s@.subrange(a as int, i as int).push(c) =~= s@.subrange(a as int, i + 1));
            assert(words(next) =~= views(parts@).push(s@.subrange(a as int, i + 1)));
        } else {
            assert(seq![c] =~= s@.subrange(i as int, i + 1));
            start = Some(i);
        }
        i += 1;
    }
    assert(s@.take(i as int) =~= s@);
    if let Some(a) = start {
        let word: &'a str = s.substring_char(a, i);
        let ghost earlier = parts@;
        parts.push(word);
        assert(views(parts@) =~= views(earlier).push(word@));
    }
    assert(forall|k: int| 0 <= k < parts@.len() ==> (#[trigger] parts@[k])@ == views(parts@)[k]);
    parts
}

/// The digit that stands for `d`.
pub open spec fn digit(d: nat) -> char {
    if d == 0 {
        '0'
    } else if d == 1 {
        '1'
    } else if d == 2 {
        '2'
    } else if d == 3 {
        '3'
    } else if d == 4 {
        '4'
    } else if d == 5 {
        '5'
    } else if d == 6 {
        '6'
    } else if d == 7 {
        '7'
    } else if d == 8 {
        '8'
    } else {
        '9'
    }
}

pub open spec fn is_digit(c: char) -> bool {
    '0' <= c <= '9'
}

/// The decimal numeral of `n`, without leading zeros.
pub open spec fn decimal(n: nat) -> Seq<char>
    decreases n,
{
    if n < 10 {
        seq![digit(n)]
    } else {
        decimal(n / 10).push(digit(n % 10))
    }
}

/// Every character of `s` is a decimal digit.
pub open spec fn all_digits(s: Seq<char>) -> bool {
    forall|i: int| 0 <= i < s.len() ==> is_digit(#[trigger] s[i])
}

/// The number that the digits of `s` write in base ten.
pub open spec fn digits_value(s: Seq<char>) -> nat
    decreases s.len(),
{
    if s.len() == 0 {
        0
    } else {
        digits_value(s.drop_last()) * 10 + (s.last() as nat - '0' as nat) as nat
    }
}

/// `s` without one leading plus sign.
pub open spec fn unsigned_part(s: Seq<char>) -> Seq<char> {
    if s.len() > 0 && s[0] == '+' {
        s.drop_first()
    } else {
        s
    }
}

/// The number that `s` writes: an optional plus sign, then digits and nothing else, up to the
/// largest `u32`.
pub open spec fn u32_of(s: Seq<char>) -> Option<u32> {
    let digits = unsigned_part(s);
    if digits.len() > 0 && all_digits(digits) && digits_value(digits) <= u32::MAX {
        Some(digits_value(digits) as u32)
    } else {
        None
    }
}

/// Leading digits never make a number smaller.
proof fn lemma_digits_value_grows(s: Seq<char>, i: int)
    requires
        0 <= i <= s.len(),
        all_digits(s),
    ensures
        digits_value(s.take(i)) <= digits_value(s),
    decreases s.len(),
{
    if i == s.len() {
        assert(s.take(i) =~= s);
    } else {
        lemma_digits_value_grows(s.drop_last(), i);
        assert(s.drop_last().take(i) =~= s.take(i));
        assert(is_digit(s[s.len() - 1]));
    }
}

/// Reads `s` as a `u32`.
pub fn parse_u32(s: &str) -> (r: Option<u32>)
    ensures
        r == u32_of(s@),
{
    let len: usize = s.unicode_len();
    let ghost digits = unsigned_part(s@);
    let ghost skip: int = s@.len() - digits.len();
    let mut i: usize = 0;
    let mut number: u32 = 0;
    let mut any: bool = false;
    for c in it: s.chars()
        invariant
            len == s@.len(),
            i == it.index(),
            it.seq() == s@,
            digits == unsigned_part(s@),
            skip == s@.len() - digits.len(),
            0 <= skip <= 1,
            forall|j: int| 0 <= j < digits.len() ==> digits[j] == s@[j + skip],
            any == (i > skip),
            i <= skip ==> number == 0,
            i >= skip ==> all_digits(digits.take(i - skip)),
            i >= skip ==> number == digits_value(digits.take(i - skip)),
    {
        assert(c == s@[i as int]);
        if i == 0 && c == '+' {
            assert(digits.take(0) =~= Seq::<char>::empty());
        } else {
            let ghost j: int = i - skip;
            assert(j >= 0);
            assert(digits[j] == c);
            if !('0' <= c && c <= '9') {
                assert(!is_digit(digits[j]));
                return None;
            }
            let ghost longer = digits.take(j + 1);
            assert(longer.drop_last() =~= digits.take(j));
            assert(longer.last() == c);
            assert(digits_value(longer) == number * 10 + (c as nat - '0' as nat) as nat);
            let value: u64 = number as u64 * 10 + (c as u64 - '0' as u64);
            if value > u32::MAX as u64 {
                proof {
                    if all_digits(digits) {
                        lemma_digits_value_grows(digits, j + 1);
                    }
                }
                return None;
            }
            number = value as u32;
            any = true;
        }
        i += 1;
    }
    assert(digits.take(digits.len() as int) =~= digits);
    if any {
        Some(number)
    } else {
        None
    }
}

/// The digit that stands for `d`, as text.
pub fn digit_text(d: u8) -> (s: &'static str)
    requires
        d < 10,
    ensures
        s@ == seq![digit(d as nat)],
{
    proof {
        reveal_strlit("0");
        reveal_strlit("1");
        reveal_strlit("2");
        reveal_strlit("3");
        reveal_strlit("4");
        reveal_strlit("5");
        reveal_strlit("6");
        reveal_strlit("7");
        reveal_strlit("8");
        reveal_strlit("9");
    }
    match d {
        0 => "0",
        1 => "1",
        2 => "2",
        3 => "3",
        4 => "4",
        5 => "5",
        6 => "6",
        7 => "7",
        8 => "8",
        _ => "9",
    }
}

/// Appends the decimal numeral of `n`.
pub fn push_decimal(out: &mut String, n: u64)
    ensures
        final(out)@ == old(out)@ + decimal(n as nat),
    decreases n,
{
    if n >= 10 {
        push_decimal(out, n / 10);
    }
    out.append(digit_text((n % 10) as u8));
    proof {
        if n >= 10 {
            assert(out@ =~= old(out)@ + decimal(n as nat));
        }
    }
}

/// Tells whether two texts are equal.
pub fn same_text(a: &str, b: &str) -> (r: bool)
    ensures
        r == (a@ == b@),
{
    a.to_owned() == b.to_owned()
}

/// A word and the blank after it add that word to the words before it.
proof fn lemma_words_append(s: Seq<char>, w: Seq<char>)
    requires
        s.len() > 0 ==> is_blank(s.last()),
        w.len() > 0,
        unbroken(w),
    ensures
        words(s + w) == words(s).push(w),
    decreases w.len(),
{
    let all = s + w;
    assert(all.drop_last() =~= s + w.drop_last());
    assert(all.last() == w.last());
    assert(!is_blank(w[w.len() - 1]));
    if w.len() == 1 {
        assert(s + w.drop_last() =~= s);
        assert(seq![w.last()] =~= w);
    } else {
        lemma_words_append(s, w.drop_last());
        let before = s + w.drop_last();
        assert(before.last() == w[w.len() - 2]);
        assert(words(before).drop_last() =~= words(s));
        assert(w.drop_last().push(w.last()) =~= w);
    }
}

proof fn lemma_words_blank(s: Seq<char>, c: char)
    requires
        is_blank(c),
    ensures
        words(s.push(c)) == words(s),
{
    assert(s.push(c).drop_last() =~= s);
}

/// `parts` with `separator` between neighbours.
pub open spec fn join(parts: Seq<Seq<char>>, separator: Seq<char>) -> Seq<char>
    decreases parts.len(),
{
    if parts.len() == 0 {
        Seq::empty()
    } else if parts.len() == 1 {
        parts[0]
    } else {
        join(parts.drop_last(), separator) + separator + parts.last()
    }
}

/// Words joined by single spaces are found again.
pub proof fn law_words_of_joined_words(parts: Seq<Seq<char>>)
    requires
        forall|i: int|
            0 <= i < parts.len() ==> #[trigger] parts[i].len() > 0 && unbroken(parts[i]),
    ensures
        words(join(parts, seq![' '])) == parts,
    decreases parts.len(),
{
    let blank = seq![' '];
    if parts.len() == 0 {
        assert(words(join(parts, blank)) =~= parts);
    } else if parts.len() == 1 {
        let none = Seq::<char>::empty();
        lemma_words_append(none, parts[0]);
        assert(none + parts[0] =~= parts[0]);
        assert(words(none).push(parts[0]) =~= parts);
    } else {
        let before = parts.drop_last();
        assert forall|i: int| 0 <= i < before.len() implies #[trigger] before[i].len() > 0
            && unbroken(before[i]) by {
            assert(before[i] == parts[i]);
        }
        law_words_of_joined_words(before);
        let s = join(before, blank);
        assert(s + blank =~= s.push(' '));
        lemma_words_blank(s, ' ');
        assert(parts[parts.len() - 1].len() > 0);
        lemma_words_append(s + blank, parts.last());
        assert(before.push(parts.last()) =~= parts);
    }
}

/// Every numeral reads as the number it was written for.
pub proof fn law_numeral_round_trip(n: u32)
    ensures
        u32_of(decimal(n as nat)) == Some(n),
{
    lemma_decimal_digits(n as nat);
    assert(is_digit(decimal(n as nat)[0]));
}

pub proof fn lemma_decimal_digits(n: nat)
    ensures
        decimal(n).len() > 0,
        all_digits(decimal(n)),
        unbroken(decimal(n)),
        digits_value(decimal(n)) == n,
    decreases n,
{
    if n < 10 {
        assert(decimal(n).drop_last() =~= Seq::<char>::empty());
        assert(digits_value(decimal(n).drop_last()) == 0);
    } else {
        lemma_decimal_digits(n / 10);
        assert(decimal(n).drop_last() =~= decimal(n / 10));
        assert forall|i: int| 0 <= i < decimal(n).len() implies is_digit(
            #[trigger] decimal(n)[i],
        ) && !is_blank(decimal(n)[i]) by {
            if i < decimal(n / 10).len() {
                assert(decimal(n)[i] == decimal(n / 10)[i]);
            }
        }
    }
}

/// No word is empty or holds a blank.
pub proof fn lemma_words_are_words(s: Seq<char>)
    ensures
        forall|i: int|
            0 <= i < words(s).len() ==> (#[trigger] words(s)[i]).len() > 0 && unbroken(words(s)[i]),
        s.len() > 0 && !is_blank(s.last()) ==> words(s).len() > 0,
    decreases s.len(),
{
    if s.len() > 0 {
        let before = s.drop_last();
        lemma_words_are_words(before);
        assert forall|i: int| 0 <= i < words(s).len() implies (#[trigger] words(s)[i]).len() > 0
            && unbroken(words(s)[i]) by {
            if i < words(before).len() - 1 {
                assert(words(s)[i] == words(before)[i]);
            } else if is_blank(s.last()) || before.len() == 0 || is_blank(before.last()) {
                if i < words(before).len() {
                    assert(words(s)[i] == words(before)[i]);
                }
            } else {
                let last = words(before)[words(before).len() - 1];
                assert(words(s)[i] == last.push(s.last()));
            }
        }
    }
}

/// Words are found on either side of a blank independently, a run without blanks is one word, and
/// nothing holds no word.
pub proof fn law_words_between_blanks(a: Seq<char>, c: char, b: Seq<char>)
    ensures
        is_blank(c) ==> words(a + seq![c] + b) == words(a) + words(b),
        a.len() > 0 && (forall|i: int| 0 <= i < a.len() ==> !is_blank(#[trigger] a[i])) ==> words(a)
            == seq![a],
        words(Seq::empty()) == Seq::<Seq<char>>::empty(),
{
    let none = Seq::<char>::empty();
    if is_blank(c) {
        lemma_words_concat(a, c, b);
    }
    if a.len() > 0 && (forall|i: int| 0 <= i < a.len() ==> !is_blank(#[trigger] a[i])) {
        lemma_words_append(none, a);
        assert(none + a =~= a);
        assert(words(none).push(a) =~= seq![a]);
    }
}

proof fn lemma_words_concat(a: Seq<char>, c: char, b: Seq<char>)
    requires
        is_blank(c),
    ensures
        words(a + seq![c] + b) == words(a) + words(b),
    decreases b.len(),
{
    let start = a + seq![c];
    if b.len() == 0 {
        assert(start + b =~= a.push(c));
        lemma_words_blank(a, c);
        assert(words(a) + words(b) =~= words(a));
    } else {
        let shorter = b.drop_last();
        lemma_words_concat(a, c, shorter);
        lemma_words_are_words(shorter);
        assert((start + b).drop_last() =~= start + shorter);
        assert((start + b).last() == b.last());
        if shorter.len() == 0 {
            assert((start + shorter).last() == c);
        } else {
            assert((start + shorter).last() == shorter.last());
        }
        assert(words(start + b) =~= words(a) + words(b));
    }
}

/// Blanks around a text do not change its words.
pub proof fn law_outer_blanks_do_not_count(c: char, s: Seq<char>, d: char)
    requires
        is_blank(c),
        is_blank(d),
    ensures
        words(seq![c] + s + seq![d]) == words(s),
{
    let none = Seq::<char>::empty();
    law_words_between_blanks(none, c, s + seq![d]);
    law_words_between_blanks(s, d, none);
    assert(none + seq![c] + (s + seq![d]) =~= seq![c] + s + seq![d]);
    assert(s + seq![d] + none =~= s + seq![d]);
    assert(words(none) + words(s + seq![d]) =~= words(s + seq![d]));
    assert(words(s) + words(none) =~= words(s));
}

/// The digits have consecutive codes, from that of zero.
pub proof fn law_digit_codes(d: nat)
    requires
        d < 10,
    ensures
        digit(d) as int == '0' as int + d,
{
}

/// A numeral ends with the units, before which stands the numeral of the tens; a number below ten
/// has one digit.
pub proof fn law_numeral_by_digits(n: nat)
    ensures
        decimal(n).len() > 0,
        decimal(n).last() as int == '0' as int + n % 10,
        n >= 10 ==> decimal(n).drop_last() == decimal(n / 10),
        n < 10 ==> decimal(n).len() == 1,
{
    law_digit_codes(n % 10);
    if n >= 10 {
        assert(decimal(n).drop_last() =~= decimal(n / 10));
    }
}

/// Different numbers have different numerals.
pub proof fn law_numerals_differ(a: nat, b: nat)
    ensures
        decimal(a) == decimal(b) ==> a == b,
{
    lemma_decimal_digits(a);
    lemma_decimal_digits(b);
}

/// Digits are read in base ten: one more digit makes ten times the number and that digit.
pub proof fn law_digits_are_read_in_base_ten(s: Seq<char>, c: char)
    requires
        '0' <= c <= '9',
    ensures
        digits_value(Seq::empty()) == 0,
        digits_value(s.push(c)) == 10 * digits_value(s) + (c as int - '0' as int),
{
    assert(s.push(c).drop_last() =~= s);
}

/// A text is read as a number exactly where it is a run of digits, with or without one plus sign
/// before it, that writes this number.
pub proof fn law_number_is_read_exactly(s: Seq<char>, v: u32)
    ensures
        u32_of(s) == Some(v) <==> exists|d: Seq<char>|
            {
                &&& s == d || s == seq!['+'] + d
                &&& d.len() > 0
                &&& forall|i: int| 0 <= i < d.len() ==> '0' <= #[trigger] d[i] <= '9'
                &&& #[trigger] digits_value(d) == v
            },
{
    let part = unsigned_part(s);
    if u32_of(s) == Some(v) {
        if s[0] == '+' {
            assert(s =~= seq!['+'] + part);
        }
        assert forall|i: int| 0 <= i < part.len() implies '0' <= #[trigger] part[i] <= '9' by {
            assert(is_digit(part[i]));
        }
        assert(digits_value(part) == v);
    }
    if exists|d: Seq<char>|
        {
            &&& s == d || s == seq!['+'] + d
            &&& d.len() > 0
            &&& forall|i: int| 0 <= i < d.len() ==> '0' <= #[trigger] d[i] <= '9'
            &&& #[trigger] digits_value(d) == v
        } {
        let d = choose|d: Seq<char>|
            {
                &&& s == d || s == seq!['+'] + d
                &&& d.len() > 0
                &&& forall|i: int| 0 <= i < d.len() ==> '0' <= #[trigger] d[i] <= '9'
                &&& #[trigger] digits_value(d) == v
            };
        assert('0' <= d[0] <= '9');
        if s != d {
            assert(s.drop_first() =~= d);
        }
        assert(part == d);
        assert(all_digits(d));
    }
}

/// A join grows by its separator and one part.
pub proof fn law_join_grows(parts: Seq<Seq<char>>, part: Seq<char>, separator: Seq<char>)
    ensures
        join(Seq::empty(), separator) == Seq::<char>::empty(),
        join(seq![part], separator) == part,
        parts.len() > 0 ==> join(parts.push(part), separator) == join(parts, separator) + separator
            + part,
{
    assert(parts.push(part).drop_last() =~= parts);
}

/// The blanks are the characters with these codes. No visible ASCII character is one of them.
pub proof fn law_blanks_by_their_codes(c: char)
    ensures
        is_blank(c) <==> {
            ||| 9 <= c as int <= 13
            ||| c as int == 32
            ||| c as int == 133
            ||| c as int == 160
            ||| c as int == 5760
            ||| 8192 <= c as int <= 8202
            ||| c as int == 8232
            ||| c as int == 8233
            ||| c as int == 8239
            ||| c as int == 8287
            ||| c as int == 12288
        },
        33 <= c as int <= 126 ==> !is_blank(c),
{
}

} // verus!
