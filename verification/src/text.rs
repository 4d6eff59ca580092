//! Verified text utilities: decimal formatting and parsing, and the small
//! string operations that the source-line scanner needs.
use vstd::prelude::*;
use vstd::string::StrSliceExecFns;
use vstd::string::StringExecFns;

verus! {

/// The decimal digit character for `d` (only meaningful for `d < 10`).
pub open spec fn spec_digit_char(d: nat) -> char {
    if d == 0 {
        '0'
    } else if d == 1 {
        '1'
    } else if d == 2 {
        '2'
    } else if d == 3 {
        '3'
    } else if d == 4 {
        '4'
    } else if d == 5 {
        '5'
    } else if d == 6 {
        '6'
    } else if d == 7 {
        '7'
    } else if d == 8 {
        '8'
    } else {
        '9'
    }
}

/// The decimal digit sequence of `n`, most significant digit first.
pub open spec fn spec_decimal(n: nat) -> Seq<char>
    decreases n,
{
    if n < 10 {
        seq![spec_digit_char(n)]
    } else {
        spec_decimal(n / 10).push(spec_digit_char(n % 10))
    }
}

/// Whether `c` is one of the ten decimal digit characters.
pub open spec fn spec_is_digit(c: char) -> bool {
    '0' as int <= c as int <= '9' as int
}

/// The numeric value of a digit character.
pub open spec fn spec_digit_value(c: char) -> nat {
    (c as int - '0' as int) as nat
}

/// The value of a digit string, read most significant digit first.
pub open spec fn spec_digits_value(s: Seq<char>) -> nat
    decreases s.len(),
{
    if s.len() == 0 {
        0
    } else {
        spec_digits_value(s.drop_last()) * 10 + spec_digit_value(s.last())
    }
}

/// Whether every character of `s` is a decimal digit.
pub open spec fn spec_all_digits(s: Seq<char>) -> bool {
    forall|i: int| 0 <= i < s.len() ==> spec_is_digit(#[trigger] s[i])
}

/// The digit part of an integer literal: the whole string, or what follows a
/// single leading sign.
pub open spec fn spec_unsigned_part(s: Seq<char>, signs: Seq<char>) -> Seq<char> {
    if s.len() > 0 && signs.contains(s[0]) {
        s.subrange(1, s.len() as int)
    } else {
        s
    }
}

/// Whether `s` is a well-formed integer literal over the allowed signs:
/// an optional sign followed by one or more decimal digits.
pub open spec fn spec_is_int_literal(s: Seq<char>, signs: Seq<char>) -> bool {
    let digits = spec_unsigned_part(s, signs);
    digits.len() > 0 && spec_all_digits(digits)
}

fn digit_char(d: u8) -> (c: char)
    requires
        d < 10,
    ensures
        c == spec_digit_char(d as nat),
{
    if d == 0 {
        '0'
    } else if d == 1 {
        '1'
    } else if d == 2 {
        '2'
    } else if d == 3 {
        '3'
    } else if d == 4 {
        '4'
    } else if d == 5 {
        '5'
    } else if d == 6 {
        '6'
    } else if d == 7 {
        '7'
    } else if d == 8 {
        '8'
    } else {
        '9'
    }
}

/// One-character string for a decimal digit.
fn digit_str(d: u8) -> (s: &'static str)
    requires
        d < 10,
    ensures
        s@ == seq![spec_digit_char(d as nat)],
{
    proof {
        reveal_strlit("0");
        reveal_strlit("1");
        reveal_strlit("2");
        reveal_strlit("3");
        reveal_strlit("4");
        reveal_strlit("5");
        reveal_strlit("6");
        reveal_strlit("7");
        reveal_strlit("8");
        reveal_strlit("9");
    }
    if d == 0 {
        "0"
    } else if d == 1 {
        "1"
    } else if d == 2 {
        "2"
    } else if d == 3 {
        "3"
    } else if d == 4 {
        "4"
    } else if d == 5 {
        "5"
    } else if d == 6 {
        "6"
    } else if d == 7 {
        "7"
    } else if d == 8 {
        "8"
    } else {
        "9"
    }
}

/// Renders `n` in decimal, most significant digit first.
pub fn u64_to_string(n: u64) -> (s: String)
    ensures
        s@ == spec_decimal(n as nat),
    decreases n,
{
    if n < 10 {
        let mut s = String::new();
        s.append(digit_str(n as u8));
        proof {
            assert(s@ =~= spec_decimal(n as nat));
        }
        s
    } else {
        let mut s = u64_to_string(n / 10);
        s.append(digit_str((n % 10) as u8));
        proof {
            assert(s@ =~= spec_decimal(n as nat));
        }
        s
    }
}

/// Renders `n` in decimal.
pub fn u32_to_string(n: u32) -> (s: String)
    ensures
        s@ == spec_decimal(n as nat),
{
    u64_to_string(n as u64)
}

/// Renders `n` in decimal.
pub fn usize_to_string(n: usize) -> (s: String)
    ensures
        s@ == spec_decimal(n as nat),
{
    u64_to_string(n as u64)
}

/// The decimal rendering of a signed value: a minus sign for negatives,
/// then the magnitude's digits.
pub open spec fn spec_signed_decimal(n: int) -> Seq<char> {
    if n < 0 {
        seq!['-'] + spec_decimal((-n) as nat)
    } else {
        spec_decimal(n as nat)
    }
}

/// Renders `n` in decimal with a leading minus sign when negative.
pub fn i32_to_string(n: i32) -> (s: String)
    ensures
        s@ == spec_signed_decimal(n as int),
{
    proof {
        reveal_strlit("-");
    }
    if n >= 0 {
        u64_to_string(n as u64)
    } else {
        let mut s = String::new();
        s.append("-");
        let magnitude: u64 = if n == i32::MIN {
            0x8000_0000u64
        } else {
            (-n) as u64
        };
        let d = u64_to_string(magnitude);
        s.append(d.as_str());
        proof {
            assert(s@ =~= spec_signed_decimal(n as int));
        }
        s
    }
}

/// Whether `c` counts as blank space when lines are trimmed.
pub open spec fn spec_is_space(c: char) -> bool {
    c == ' ' || c == '\t' || c == '\r' || c == '\n'
}

fn is_space(c: char) -> (r: bool)
    ensures
        r == spec_is_space(c),
{
    c == ' ' || c == '\t' || c == '\r' || c == '\n'
}

/// `s` without its leading blank space.
pub open spec fn spec_trim_front(s: Seq<char>) -> Seq<char>
    decreases s.len(),
{
    if s.len() > 0 && spec_is_space(s[0]) {
        spec_trim_front(s.subrange(1, s.len() as int))
    } else {
        s
    }
}

/// `s` without its trailing blank space.
pub open spec fn spec_trim_back(s: Seq<char>) -> Seq<char>
    decreases s.len(),
{
    if s.len() > 0 && spec_is_space(s.last()) {
        spec_trim_back(s.drop_last())
    } else {
        s
    }
}

/// `s` without leading and trailing blank space.
pub open spec fn spec_trim(s: Seq<char>) -> Seq<char> {
    spec_trim_back(spec_trim_front(s))
}

proof fn lemma_trim_front_skip(s: Seq<char>, i: int)
    requires
        0 <= i <= s.len(),
        forall|k: int| 0 <= k < i ==> spec_is_space(#[trigger] s[k]),
        i == s.len() || !spec_is_space(s[i]),
    ensures
        spec_trim_front(s) == s.subrange(i, s.len() as int),
    decreases i,
{
    if i == 0 {
        assert(s.subrange(0, s.len() as int) =~= s);
    } else {
        let rest = s.subrange(1, s.len() as int);
        lemma_trim_front_skip(rest, i - 1);
        assert(rest.subrange(i - 1, rest.len() as int) =~= s.subrange(i, s.len() as int));
    }
}

proof fn lemma_trim_back_skip(s: Seq<char>, j: int)
    requires
        0 <= j <= s.len(),
        forall|k: int| j <= k < s.len() ==> spec_is_space(#[trigger] s[k]),
        j == 0 || !spec_is_space(s[j - 1]),
    ensures
        spec_trim_back(s) == s.subrange(0, j),
    decreases s.len() - j,
{
    if j == s.len() {
        assert(s.subrange(0, j) =~= s);
    } else {
        let rest = s.drop_last();
        lemma_trim_back_skip(rest, j);
        assert(rest.subrange(0, j) =~= s.subrange(0, j));
    }
}

/// Returns `s` without leading and trailing blank space.
pub fn trim(s: &str) -> (r: &str)
    ensures
        r@ == spec_trim(s@),
{
    let len = s.unicode_len();
    let mut start: usize = 0;
    while start < len && is_space(s.get_char(start))
        invariant
            0 <= start <= len,
            len == s@.len(),
            forall|k: int| 0 <= k < start ==> spec_is_space(#[trigger] s@[k]),
        decreases len - start,
    {
        start += 1;
    }
    let mut end: usize = len;
    while end > start && is_space(s.get_char(end - 1))
        invariant
            start <= end <= len,
            len == s@.len(),
            forall|k: int| end <= k < len ==> spec_is_space(#[trigger] s@[k]),
        decreases end,
    {
        end -= 1;
    }
    proof {
        lemma_trim_front_skip(s@, start as int);
        let front = s@.subrange(start as int, len as int);
        lemma_trim_back_skip(front, end - start);
        assert(front.subrange(0, end - start) =~= s@.subrange(start as int, end as int));
    }
    s.substring_char(start, end)
}

/// Character-for-character equality of two string slices.
pub fn str_eq(a: &str, b: &str) -> (r: bool)
    ensures
        r == (a@ == b@),
{
    let alen = a.unicode_len();
    let blen = b.unicode_len();
    if alen != blen {
        proof {
            assert(a@ != b@);
        }
        return false;
    }
    let mut i: usize = 0;
    while i < alen
        invariant
            0 <= i <= alen,
            alen == a@.len(),
            alen == b@.len(),
            forall|k: int| 0 <= k < i ==> a@[k] == b@[k],
        decreases alen - i,
    {
        if a.get_char(i) != b.get_char(i) {
            proof {
                assert(a@ != b@);
            }
            return false;
        }
        i += 1;
    }
    proof {
        assert(a@ =~= b@);
    }
    true
}

/// Whether `p` occurs at the start of `s`.
pub open spec fn spec_starts_with(s: Seq<char>, p: Seq<char>) -> bool {
    p.len() <= s.len() && s.subrange(0, p.len() as int) == p
}

pub fn starts_with(s: &str, p: &str) -> (r: bool)
    ensures
        r == spec_starts_with(s@, p@),
{
    let slen = s.unicode_len();
    let plen = p.unicode_len();
    if plen > slen {
        return false;
    }
    let mut i: usize = 0;
    while i < plen
        invariant
            0 <= i <= plen <= slen,
            slen == s@.len(),
            plen == p@.len(),
            forall|k: int| 0 <= k < i ==> s@[k] == p@[k],
        decreases plen - i,
    {
        if s.get_char(i) != p.get_char(i) {
            proof {
                assert(s@.subrange(0, p@.len() as int)[i as int] != p@[i as int]);
            }
            return false;
        }
        i += 1;
    }
    proof {
        assert(s@.subrange(0, p@.len() as int) =~= p@);
    }
    true
}

/// Whether the last character of `s` is `c`.
pub fn ends_with_char(s: &str, c: char) -> (r: bool)
    ensures
        r == (s@.len() > 0 && s@.last() == c),
{
    let len = s.unicode_len();
    if len == 0 {
        false
    } else {
        s.get_char(len - 1) == c
    }
}

/// Whether `p` occurs in `s` as a contiguous substring.
pub open spec fn spec_contains_str(s: Seq<char>, p: Seq<char>) -> bool {
    exists|i: int| 0 <= i <= s.len() - p.len() && #[trigger] s.subrange(i, i + p.len() as int) == p
}

pub fn contains_str(s: &str, p: &str) -> (r: bool)
    ensures
        r == spec_contains_str(s@, p@),
{
    let slen = s.unicode_len();
    let plen = p.unicode_len();
    if plen > slen {
        proof {
            assert(!spec_contains_str(s@, p@));
        }
        return false;
    }
    let mut i: usize = 0;
    while i <= slen - plen
        invariant
            0 <= i <= slen - plen + 1,
            plen <= slen,
            slen == s@.len(),
            plen == p@.len(),
            forall|k: int|
                0 <= k < i ==> #[trigger] s@.subrange(k, k + p@.len() as int) != p@,
        decreases slen - plen - i + 1,
    {
        let mut j: usize = 0;
        let mut matched = true;
        while j < plen
            invariant
                0 <= j <= plen,
                i + plen <= slen,
                slen == s@.len(),
                plen == p@.len(),
                matched == (forall|k: int| 0 <= k < j ==> s@[i + k] == p@[k]),
            decreases plen - j,
        {
            if s.get_char(i + j) != p.get_char(j) {
                proof {
                    assert(s@[i + j as int] != p@[j as int]);
                }
                matched = false;
                j = plen;
            } else {
                j += 1;
            }
        }
        if matched {
            proof {
                assert(s@.subrange(i as int, i + p@.len() as int) =~= p@);
            }
            return true;
        }
        proof {
            assert(s@.subrange(i as int, i + p@.len() as int) != p@);
        }
        i += 1;
    }
    proof {
        assert(!spec_contains_str(s@, p@));
    }
    false
}

/// The pieces of `s` between occurrences of `sep`, empty pieces kept,
/// as `str::split` yields them.
pub open spec fn spec_split(s: Seq<char>, sep: char) -> Seq<Seq<char>>
    decreases s.len(),
{
    if s.len() == 0 {
        seq![Seq::<char>::empty()]
    } else if s[0] == sep {
        seq![Seq::<char>::empty()] + spec_split(s.subrange(1, s.len() as int), sep)
    } else {
        let r = spec_split(s.subrange(1, s.len() as int), sep);
        seq![seq![s[0]] + r[0]] + r.subrange(1, r.len() as int)
    }
}

pub proof fn lemma_split_len(s: Seq<char>, sep: char)
    ensures
        spec_split(s, sep).len() >= 1,
    decreases s.len(),
{
    if s.len() > 0 {
        lemma_split_len(s.subrange(1, s.len() as int), sep);
    }
}

proof fn lemma_split_at_first_sep(s: Seq<char>, sep: char, i: int)
    requires
        0 <= i <= s.len(),
        forall|k: int| 0 <= k < i ==> s[k] != sep,
        i == s.len() || s[i] == sep,
    ensures
        i == s.len() ==> spec_split(s, sep) == seq![s],
        i < s.len() ==> spec_split(s, sep) == seq![s.subrange(0, i)] + spec_split(
            s.subrange(i + 1, s.len() as int),
            sep,
        ),
    decreases i,
{
    lemma_split_len(s, sep);
    if i == 0 {
        if 0 < s.len() {
            assert(s.subrange(0, 0) =~= Seq::<char>::empty());
        } else {
            assert(s.subrange(0, 0) =~= s);
            assert(s =~= Seq::<char>::empty());
            assert(spec_split(s, sep) =~= seq![s]);
        }
    } else {
        let rest = s.subrange(1, s.len() as int);
        lemma_split_at_first_sep(rest, sep, i - 1);
        lemma_split_len(rest, sep);
        if i == s.len() {
            assert(spec_split(rest, sep) == seq![rest]);
            let r = spec_split(rest, sep);
            assert(seq![s[0]] + r[0] =~= s);
            assert(r.subrange(1, r.len() as int) =~= Seq::<Seq<char>>::empty());
            assert(spec_split(s, sep) =~= seq![s]);
        } else {
            let tail = rest.subrange(i, rest.len() as int);
            assert(tail =~= s.subrange(i + 1, s.len() as int));
            let r = spec_split(rest, sep);
            assert(r == seq![rest.subrange(0, i - 1)] + spec_split(tail, sep));
            assert(seq![s[0]] + r[0] =~= s.subrange(0, i));
            assert(r.subrange(1, r.len() as int) =~= spec_split(tail, sep));
            assert(spec_split(s, sep) =~= seq![s.subrange(0, i)] + spec_split(tail, sep));
        }
    }
}

/// The first piece of a split is everything before the first separator.
pub proof fn lemma_split_first_piece(s: Seq<char>, sep: char, i: int)
    requires
        0 <= i <= s.len(),
        forall|k: int| 0 <= k < i ==> s[k] != sep,
        i == s.len() || s[i] == sep,
    ensures
        spec_split(s, sep).len() >= 1,
        spec_split(s, sep)[0] == s.subrange(0, i),
{
    lemma_split_len(s, sep);
    lemma_split_at_first_sep(s, sep, i);
    if i == s.len() {
        assert(s.subrange(0, i) =~= s);
    }
}

/// Splits `s` at every occurrence of `sep`, keeping empty pieces.
pub fn split_char(s: &str, sep: char) -> (r: Vec<String>)
    ensures
        r.deep_view() == spec_split(s@, sep),
{
    let len = s.unicode_len();
    let mut out: Vec<String> = Vec::new();
    proof {
        assert(s@.subrange(0, s@.len() as int) =~= s@);
        assert(out.deep_view() =~= Seq::<Seq<char>>::empty());
        assert(out.deep_view() + spec_split(s@, sep) =~= spec_split(s@, sep));
    }
    let mut start: usize = 0;
    let mut i: usize = 0;
    while i < len
        invariant
            0 <= start <= i <= len,
            len == s@.len(),
            forall|k: int| start <= k < i ==> s@[k] != sep,
            spec_split(s@, sep) == out.deep_view() + spec_split(
                s@.subrange(start as int, len as int),
                sep,
            ),
        decreases len - i,
    {
        if s.get_char(i) == sep {
            let piece = s.substring_char(start, i).to_owned();
            proof {
                let suffix = s@.subrange(start as int, len as int);
                lemma_split_at_first_sep(suffix, sep, i - start);
                assert(suffix.subrange(0, i - start) =~= s@.subrange(start as int, i as int));
                assert(suffix.subrange(i - start + 1, suffix.len() as int) =~= s@.subrange(
                    i + 1,
                    len as int,
                ));
            }
            let ghost prev = out.deep_view();
            out.push(piece);
            proof {
                assert(out.deep_view() =~= prev.push(piece@));
                assert(out.deep_view() + spec_split(s@.subrange(i + 1, len as int), sep)
                    =~= spec_split(s@, sep));
            }
            start = i + 1;
        }
        i += 1;
    }
    let piece = s.substring_char(start, len).to_owned();
    proof {
        let suffix = s@.subrange(start as int, len as int);
        lemma_split_at_first_sep(suffix, sep, len - start);
    }
    let ghost prev = out.deep_view();
    out.push(piece);
    proof {
        assert(out.deep_view() =~= prev.push(piece@));
        assert(out.deep_view() =~= spec_split(s@, sep));
    }
    out
}

/// Relies on char::to_string: the returned string holds exactly the one
/// character it was called on.
#[verifier::external_body]
pub fn char_to_string(c: char) -> (r: String)
    ensures
        r@ == seq![c],
{
    c.to_string()
}

/// `s` with every occurrence of `c` removed.
pub open spec fn spec_remove_char(s: Seq<char>, c: char) -> Seq<char> {
    s.filter(|x: char| x != c)
}

/// Returns `s` with every occurrence of `c` removed.
pub fn remove_char(s: &str, c: char) -> (r: String)
    ensures
        r@ == spec_remove_char(s@, c),
{
    let len = s.unicode_len();
    let mut out = String::new();
    proof {
        assert(s@.subrange(0, 0) =~= Seq::<char>::empty());
    }
    let mut i: usize = 0;
    while i < len
        invariant
            0 <= i <= len,
            len == s@.len(),
            out@ == spec_remove_char(s@.subrange(0, i as int), c),
        decreases len - i,
    {
        let ch = s.get_char(i);
        let ghost prefix = s@.subrange(0, i as int);
        let ghost next = s@.subrange(0, i + 1);
        proof {
            assert(next.drop_last() =~= prefix);
            assert(next.last() == s@[i as int]);
        }
        if ch != c {
            let one = char_to_string(ch);
            out.append(one.as_str());
        }
        proof {
            reveal(Seq::filter);
            assert(out@ =~= spec_remove_char(next, c));
        }
        i += 1;
    }
    proof {
        assert(s@.subrange(0, len as int) =~= s@);
    }
    out
}

proof fn lemma_digits_value_prefix_le(s: Seq<char>, i: int)
    requires
        0 <= i <= s.len(),
    ensures
        spec_digits_value(s.subrange(0, i)) <= spec_digits_value(s),
    decreases s.len(),
{
    if i < s.len() {
        let shorter = s.drop_last();
        assert(s.subrange(0, i) =~= shorter.subrange(0, i));
        lemma_digits_value_prefix_le(shorter, i);
    } else {
        assert(s.subrange(0, i) =~= s);
    }
}

fn char_digit(c: char) -> (r: Option<u8>)
    ensures
        r is Some <==> spec_is_digit(c),
        r is Some ==> r->0 == spec_digit_value(c),
{
    let u = c as u32;
    if 48 <= u && u <= 57 {
        Some((u - 48) as u8)
    } else {
        None
    }
}

/// Parses the digits of `s` from position `from` on as an unsigned decimal
/// number. Mirrors how the standard library reads an integer literal:
/// empty input, a non-digit, and a value over `u32::MAX` are the three
/// failure cases.
fn parse_digits_u32(s: &str, from: usize) -> (r: Result<u32, &'static str>)
    requires
        from <= s@.len(),
    ensures
        ({
            let digits = s@.subrange(from as int, s@.len() as int);
            &&& (r is Ok <==> digits.len() > 0 && spec_all_digits(digits) && spec_digits_value(
                digits,
            ) <= u32::MAX)
            &&& (r is Ok ==> r->Ok_0 == spec_digits_value(digits))
        }),
{
    let ghost digits = s@.subrange(from as int, s@.len() as int);
    let len = s.unicode_len();
    if from == len {
        return Err("cannot parse integer from empty string");
    }
    let mut acc: u32 = 0;
    let mut i: usize = from;
    while i < len
        invariant
            from <= i <= len,
            len == s@.len(),
            digits == s@.subrange(from as int, s@.len() as int),
            forall|k: int| from <= k < i ==> spec_is_digit(#[trigger] s@[k]),
            acc == spec_digits_value(s@.subrange(from as int, i as int)),
        decreases len - i,
    {
        let c = s.get_char(i);
        proof {
            let prefix = s@.subrange(from as int, i as int);
            let next = s@.subrange(from as int, i + 1);
            assert(next.drop_last() =~= prefix);
            assert(next.last() == s@[i as int]);
        }
        match char_digit(c) {
            None => {
                proof {
                    assert(digits[i - from] == s@[i as int]);
                }
                return Err("invalid digit found in string");
            },
            Some(d) => {
                let wide: u64 = acc as u64 * 10 + d as u64;
                if wide > u32::MAX as u64 {
                    proof {
                        assert(wide == spec_digits_value(s@.subrange(from as int, i + 1)));
                        assert(s@.subrange(from as int, i + 1) =~= digits.subrange(
                            0,
                            i + 1 - from,
                        ));
                        lemma_digits_value_prefix_le(digits, i + 1 - from);
                    }
                    return Err("number too large to fit in target type");
                }
                acc = wide as u32;
            },
        }
        i += 1;
    }
    proof {
        assert(s@.subrange(from as int, i as int) =~= digits);
        assert(forall|k: int|
            0 <= k < digits.len() ==> spec_is_digit(#[trigger] digits[k]) == spec_is_digit(
                s@[k + from],
            ));
    }
    Ok(acc)
}

/// Whether `s` is a decimal literal (an optional leading `+`, then digits)
/// whose value fits a `u32`.
pub open spec fn spec_u32_literal_ok(s: Seq<char>) -> bool {
    spec_is_int_literal(s, seq!['+']) && spec_u32_literal_value(s) <= u32::MAX
}

/// The value of an unsigned decimal literal.
pub open spec fn spec_u32_literal_value(s: Seq<char>) -> nat {
    spec_digits_value(spec_unsigned_part(s, seq!['+']))
}

/// Parses `s` as an unsigned 32-bit decimal literal: an optional leading
/// `+`, then one or more digits.
pub fn parse_u32(s: &str) -> (r: Result<u32, &'static str>)
    ensures
        r is Ok <==> spec_u32_literal_ok(s@),
        r is Ok ==> r->Ok_0 == spec_u32_literal_value(s@),
{
    let len = s.unicode_len();
    if len == 0 {
        return Err("cannot parse integer from empty string");
    }
    let first = s.get_char(0);
    let from: usize = if first == '+' {
        1
    } else {
        0
    };
    proof {
        if from == 0 {
            assert(!seq!['+'].contains(s@[0])) by {
                assert(forall|j: int| 0 <= j < 1 ==> seq!['+'][j] == '+');
            }
            assert(s@.subrange(0, s@.len() as int) =~= s@);
            assert(spec_unsigned_part(s@, seq!['+']) == s@);
        } else {
            assert(seq!['+'].contains(s@[0])) by {
                assert(seq!['+'][0] == '+');
            }
            assert(spec_unsigned_part(s@, seq!['+']) == s@.subrange(1, s@.len() as int));
        }
    }
    parse_digits_u32(s, from)
}

/// The signed value of a decimal literal with an optional `+` or `-` sign.
pub open spec fn spec_i32_literal_value(s: Seq<char>) -> int {
    let magnitude = spec_digits_value(spec_unsigned_part(s, seq!['+', '-'])) as int;
    if s.len() > 0 && s[0] == '-' {
        -magnitude
    } else {
        magnitude
    }
}

/// Whether `s` is a decimal literal whose value fits an `i32`.
pub open spec fn spec_i32_literal_ok(s: Seq<char>) -> bool {
    spec_is_int_literal(s, seq!['+', '-']) && i32::MIN <= spec_i32_literal_value(s)
        <= i32::MAX
}

/// Parses `s` as a signed 32-bit decimal literal: an optional leading `+`
/// or `-`, then one or more digits.
pub fn parse_i32(s: &str) -> (r: Result<i32, &'static str>)
    ensures
        r is Ok <==> spec_i32_literal_ok(s@),
        r is Ok ==> r->Ok_0 == spec_i32_literal_value(s@),
{
    let len = s.unicode_len();
    if len == 0 {
        return Err("cannot parse integer from empty string");
    }
    let first = s.get_char(0);
    let negative = first == '-';
    let from: usize = if first == '+' || first == '-' {
        1
    } else {
        0
    };
    proof {
        if from == 0 {
            assert(!seq!['+', '-'].contains(s@[0])) by {
                assert(seq!['+', '-'][0] == '+');
                assert(seq!['+', '-'][1] == '-');
                assert(forall|j: int|
                    0 <= j < 2 ==> seq!['+', '-'][j] == '+' || seq!['+', '-'][j] == '-');
            }
            assert(s@.subrange(0, s@.len() as int) =~= s@);
            assert(spec_unsigned_part(s@, seq!['+', '-']) == s@);
        } else {
            assert(seq!['+', '-'].contains(s@[0])) by {
                assert(seq!['+', '-'][0] == '+');
                assert(seq!['+', '-'][1] == '-');
            }
            assert(spec_unsigned_part(s@, seq!['+', '-']) == s@.subrange(1, s@.len() as int));
        }
    }
    let magnitude = match parse_digits_u32(s, from) {
        Ok(m) => m,
        Err(e) => {
            return Err(e);
        },
    };
    if negative {
        if magnitude > 0x8000_0000u32 {
            return Err("number too small to fit in target type");
        }
        if magnitude == 0x8000_0000u32 {
            Ok(i32::MIN)
        } else {
            Ok(-(magnitude as i32))
        }
    } else {
        if magnitude > 0x7FFF_FFFFu32 {
            return Err("number too large to fit in target type");
        }
        Ok(magnitude as i32)
    }
}

} // verus!
