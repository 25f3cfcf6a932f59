//! Character-level text helpers shared by the rest of the library.
use vstd::prelude::*;
use vstd::string::*;

verus! {

broadcast use vstd::string::group_string_axioms;

/// Appends one character to a string (`String::push`).
#[verifier::external_body]
pub(crate) fn push_char(s: &mut String, c: char)
    ensures
        final(s)@ == old(s)@.push(c),
{
    s.push(c);
}

/// The characters of `s`, in order.
pub fn chars_of(s: &str) -> (v: Vec<char>)
    ensures
        v@ == s@,
{
    let mut v: Vec<char> = Vec::new();
    for c in it: s.chars()
        invariant
            v@ == it.seq().take(it.index() as int),
            it.seq() == s@,
    {
        v.push(c);
    }
    v
}

} // verus!

verus! {

/// The decimal digit character for `d` (`0 <= d < 10`).
pub open spec fn digit_char(d: int) -> char {
    ((48 + d) as u8) as char
}

/// Decimal notation of a natural number, most significant digit first, no leading zeros.
pub open spec fn nat_text(n: nat) -> Seq<char>
    decreases n,
{
    if n < 10 {
        seq![digit_char(n as int)]
    } else {
        nat_text(n / 10).push(digit_char((n % 10) as int))
    }
}

/// Decimal notation of an integer, as `Display` writes it: a `-` for negative numbers.
pub open spec fn int_text(x: int) -> Seq<char> {
    if x < 0 {
        seq!['-'] + nat_text((-x) as nat)
    } else {
        nat_text(x as nat)
    }
}

/// Decimal notation reads back: it is a non-empty run of ASCII digits, without a leading zero
/// unless the number is zero, whose value is the number.
pub proof fn lemma_nat_text_reads_back(n: nat)
    ensures
        nat_text(n).len() > 0,
        forall|i: int| 0 <= i < nat_text(n).len() ==> '0' <= #[trigger] nat_text(n)[i] <= '9',
        digits_value(nat_text(n)) == n,
        nat_text(n)[0] == '0' ==> n == 0,
    decreases n,
{
    if n < 10 {
        let c = digit_char(n as int);
        assert(c as u32 == 48 + n) by {
            assert((48 + n) as u8 as u32 == 48 + n);
        }
        assert(nat_text(n) =~= seq![c]);
        assert(seq![c].drop_last() =~= Seq::<char>::empty());
        assert(digits_value(Seq::<char>::empty()) == 0);
        assert(seq![c].last() == c);
        assert(digits_value(seq![c]) == n);
    } else {
        lemma_nat_text_reads_back(n / 10);
        let t = nat_text(n / 10);
        let d = (n % 10) as int;
        let c = digit_char(d);
        assert(c as u32 == 48 + d) by {
            assert((48 + d) as u8 as u32 == 48 + d);
        }
        assert(nat_text(n) == t.push(c));
        assert(t.push(c).drop_last() =~= t);
        assert(n == (n / 10) * 10 + d) by (nonlinear_arith)
            requires
                d == n % 10,
        ;
        assert(t.push(c).last() == c);
        assert(digits_value(t.push(c)) == digits_value(t) * 10 + d);
        assert(nat_text(n)[0] == t[0]);
    }
}

/// Appends the decimal notation of `n`.
pub fn push_nat(out: &mut String, n: u64)
    ensures
        final(out)@ == old(out)@ + nat_text(n as nat),
    decreases n,
{
    if n >= 10 {
        push_nat(out, n / 10);
    }
    let d: u8 = (n % 10) as u8;
    push_char(out, (48u8 + d) as char);
    proof {
        assert(old(out)@ + nat_text(n as nat) =~= if n >= 10 {
            old(out)@ + nat_text((n / 10) as nat) + seq![digit_char((n % 10) as int)]
        } else {
            old(out)@ + seq![digit_char(n as int)]
        });
    }
}

/// Appends the decimal notation of `x`.
pub fn push_int(out: &mut String, x: i64)
    ensures
        final(out)@ == old(out)@ + int_text(x as int),
{
    if x < 0 {
        push_char(out, '-');
        let m: u64 = (0i128 - (x as i128)) as u64;
        push_nat(out, m);
        assert(final(out)@ =~= old(out)@ + int_text(x as int));
    } else {
        push_nat(out, x as u64);
    }
}

/// `x` as a decimal string.
pub fn int_string(x: i64) -> (r: String)
    ensures
        r@ == int_text(x as int),
{
    let mut r = String::new();
    push_int(&mut r, x);
    assert(r@ =~= int_text(x as int));
    r
}

} // verus!

verus! {

/// `s` cut to its first `max` characters followed by `suffix`, when it is longer than `max`
/// characters; `s` itself otherwise.
pub open spec fn truncated(s: Seq<char>, max: nat, suffix: Seq<char>) -> Seq<char> {
    if s.len() > max {
        s.take(max as int) + suffix
    } else {
        s
    }
}

/// Cutting keeps the start: a text of at most `max` characters is left as it is; a longer one
/// becomes its first `max` characters followed by `suffix`.
pub proof fn lemma_truncated_keeps_the_start(s: Seq<char>, max: nat, suffix: Seq<char>)
    ensures
        s.len() <= max ==> truncated(s, max, suffix) == s,
        s.len() > max ==> {
            let t = truncated(s, max, suffix);
            &&& t.len() == max + suffix.len()
            &&& forall|i: int| 0 <= i < max ==> #[trigger] t[i] == s[i]
            &&& forall|i: int| 0 <= i < suffix.len() ==> t[max + i] == #[trigger] suffix[i]
        },
{
}

/// Appends the characters `v[lo..hi]`.
pub fn push_chars(out: &mut String, v: &Vec<char>, lo: usize, hi: usize)
    requires
        lo <= hi <= v.len(),
    ensures
        final(out)@ == old(out)@ + v@.subrange(lo as int, hi as int),
{
    let mut i = lo;
    while i < hi
        invariant
            lo <= i <= hi <= v.len(),
            out@ == old(out)@ + v@.subrange(lo as int, i as int),
        decreases hi - i,
    {
        push_char(out, v[i]);
        i = i + 1;
        assert(out@ =~= old(out)@ + v@.subrange(lo as int, i as int));
    }
}

/// The string made of the characters `v[lo..hi]`.
pub fn string_of(v: &Vec<char>, lo: usize, hi: usize) -> (r: String)
    requires
        lo <= hi <= v.len(),
    ensures
        r@ == v@.subrange(lo as int, hi as int),
{
    let mut r = String::new();
    push_chars(&mut r, v, lo, hi);
    assert(r@ =~= v@.subrange(lo as int, hi as int));
    r
}

/// A copy of `s`.
pub fn copy_str(s: &str) -> (r: String)
    ensures
        r@ == s@,
{
    s.to_string()
}

/// Keeps the first `max` characters of `s` and appends `suffix` when `s` has more than `max`
/// characters; returns `s` unchanged otherwise.
pub fn truncate_chars(s: &str, max: usize, suffix: &str) -> (r: String)
    ensures
        r@ == truncated(s@, max as nat, suffix@),
{
    let v = chars_of(s);
    if v.len() > max {
        let mut r = string_of(&v, 0, max);
        r.append(suffix);
        assert(v@.subrange(0, max as int) =~= s@.take(max as int));
        r
    } else {
        copy_str(s)
    }
}

/// `needle` occurs in `hay` at position `i`.
pub open spec fn occurs_at(hay: Seq<char>, needle: Seq<char>, i: int) -> bool {
    0 <= i && i + needle.len() <= hay.len() && hay.subrange(i, i + needle.len()) == needle
}

/// `needle` occurs somewhere in `hay`.
pub open spec fn contains_text(hay: Seq<char>, needle: Seq<char>) -> bool {
    exists|i: int| occurs_at(hay, needle, i)
}

/// Whether `needle` occurs in `hay` at position `start`.
pub fn occurs_at_exec(hay: &Vec<char>, needle: &Vec<char>, start: usize) -> (r: bool)
    ensures
        r == occurs_at(hay@, needle@, start as int),
{
    if needle.len() > hay.len() || start > hay.len() - needle.len() {
        return false;
    }
    let mut j: usize = 0;
    while j < needle.len()
        invariant
            start + needle.len() <= hay.len(),
            0 <= j <= needle.len(),
            forall|k: int| 0 <= k < j ==> hay@[start + k] == needle@[k],
        decreases needle.len() - j,
    {
        if hay[start + j] != needle[j] {
            assert(hay@.subrange(start as int, start + needle.len())[j as int] != needle@[j as int]);
            return false;
        }
        j = j + 1;
    }
    assert(hay@.subrange(start as int, start + needle.len()) =~= needle@);
    true
}

/// Whether `needle` occurs anywhere in `hay`.
pub fn contains_exec(hay: &Vec<char>, needle: &Vec<char>) -> (r: bool)
    ensures
        r == contains_text(hay@, needle@),
{
    if needle.len() > hay.len() {
        return false;
    }
    if needle.len() == 0 {
        assert(hay@.subrange(0, 0) =~= needle@);
        assert(occurs_at(hay@, needle@, 0));
        return true;
    }
    let last = hay.len() - needle.len();
    let mut i: usize = 0;
    while i <= last
        invariant
            last + needle.len() == hay.len(),
            needle.len() >= 1,
            0 <= i <= last + 1,
            forall|k: int| 0 <= k < i ==> !occurs_at(hay@, needle@, k),
        decreases last + 1 - i,
    {
        if occurs_at_exec(hay, needle, i) {
            return true;
        }
        i = i + 1;
    }
    assert forall|k: int| !occurs_at(hay@, needle@, k) by {
        if 0 <= k && k + needle@.len() <= hay@.len() {
            assert(k < i);
        }
    }
    false
}

/// Rust's `char::is_whitespace`: the Unicode `White_Space` property.
pub open spec fn is_white_space(c: char) -> bool {
    ||| '\t' <= c <= '\r'
    ||| c == ' '
    ||| c == '\u{85}'
    ||| c == '\u{A0}'
    ||| c == '\u{1680}'
    ||| '\u{2000}' <= c <= '\u{200A}'
    ||| c == '\u{2028}'
    ||| c == '\u{2029}'
    ||| c == '\u{202F}'
    ||| c == '\u{205F}'
    ||| c == '\u{3000}'
}

/// Whether `c` is Unicode white space.
pub fn white_space(c: char) -> (r: bool)
    ensures
        r == is_white_space(c),
{
    ('\t' <= c && c <= '\r') || c == ' ' || c == '\u{85}' || c == '\u{A0}' || c == '\u{1680}'
        || ('\u{2000}' <= c && c <= '\u{200A}') || c == '\u{2028}' || c == '\u{2029}' || c
        == '\u{202F}' || c == '\u{205F}' || c == '\u{3000}'
}

/// `s` without its trailing white space (`str::trim_end`).
pub open spec fn trim_end_text(s: Seq<char>) -> Seq<char>
    decreases s.len(),
{
    if s.len() > 0 && is_white_space(s.last()) {
        trim_end_text(s.drop_last())
    } else {
        s
    }
}

/// `s` without its leading white space (`str::trim_start`).
pub open spec fn trim_start_text(s: Seq<char>) -> Seq<char>
    decreases s.len(),
{
    if s.len() > 0 && is_white_space(s[0]) {
        trim_start_text(s.drop_first())
    } else {
        s
    }
}

/// `s` without leading and trailing white space (`str::trim`).
pub open spec fn trim_text(s: Seq<char>) -> Seq<char> {
    trim_end_text(trim_start_text(s))
}

} // verus!

verus! {

/// Trimming the end removes exactly the trailing white space: what is left is a prefix that does
/// not end in white space, and everything removed is white space.
pub proof fn lemma_trim_end_removes_trailing_space(s: Seq<char>)
    ensures
        trim_end_text(s).len() <= s.len(),
        trim_end_text(s) == s.take(trim_end_text(s).len() as int),
        trim_end_text(s).len() > 0 ==> !is_white_space(trim_end_text(s).last()),
        forall|i: int| trim_end_text(s).len() <= i < s.len() ==> is_white_space(#[trigger] s[i]),
    decreases s.len(),
{
    if s.len() > 0 && is_white_space(s.last()) {
        lemma_trim_end_removes_trailing_space(s.drop_last());
        let t = trim_end_text(s.drop_last());
        assert(s.drop_last().take(t.len() as int) =~= s.take(t.len() as int));
        assert forall|i: int| t.len() <= i < s.len() implies is_white_space(#[trigger] s[i]) by {
            if i < s.len() - 1 {
                assert(s[i] == s.drop_last()[i]);
            }
        }
    } else {
        assert(s.take(s.len() as int) =~= s);
    }
}

/// Trimming the start removes exactly the leading white space: what is left is a suffix that
/// does not start with white space, and everything removed is white space.
pub proof fn lemma_trim_start_removes_leading_space(s: Seq<char>)
    ensures
        trim_start_text(s).len() <= s.len(),
        trim_start_text(s) == s.skip(s.len() - trim_start_text(s).len()),
        trim_start_text(s).len() > 0 ==> !is_white_space(trim_start_text(s)[0]),
        forall|i: int| 0 <= i < s.len() - trim_start_text(s).len() ==> is_white_space(#[trigger] s[i]),
    decreases s.len(),
{
    if s.len() > 0 && is_white_space(s[0]) {
        lemma_trim_start_removes_leading_space(s.drop_first());
        let t = trim_start_text(s.drop_first());
        assert(s.drop_first().skip(s.drop_first().len() - t.len()) =~= s.skip(s.len() - t.len()));
        assert forall|i: int| 0 <= i < s.len() - t.len() implies is_white_space(#[trigger] s[i]) by {
            if i > 0 {
                assert(s[i] == s.drop_first()[i - 1]);
            }
        }
    } else {
        assert(s.skip(0) =~= s);
    }
}

/// The end of `v[lo..hi]` once trailing white space is removed.
pub fn trim_end_index(v: &Vec<char>, lo: usize, hi: usize) -> (end: usize)
    requires
        lo <= hi <= v.len(),
    ensures
        lo <= end <= hi,
        v@.subrange(lo as int, end as int) == trim_end_text(v@.subrange(lo as int, hi as int)),
{
    let mut end = hi;
    while end > lo && white_space(v[end - 1])
        invariant
            lo <= end <= hi <= v.len(),
            trim_end_text(v@.subrange(lo as int, end as int)) == trim_end_text(
                v@.subrange(lo as int, hi as int),
            ),
        decreases end,
    {
        assert(v@.subrange(lo as int, end as int).drop_last() =~= v@.subrange(
            lo as int,
            end - 1,
        ));
        end = end - 1;
    }
    end
}

/// The start of `v[lo..hi]` once leading white space is removed.
pub fn trim_start_index(v: &Vec<char>, lo: usize, hi: usize) -> (start: usize)
    requires
        lo <= hi <= v.len(),
    ensures
        lo <= start <= hi,
        v@.subrange(start as int, hi as int) == trim_start_text(v@.subrange(lo as int, hi as int)),
{
    let mut start = lo;
    while start < hi && white_space(v[start])
        invariant
            lo <= start <= hi <= v.len(),
            trim_start_text(v@.subrange(start as int, hi as int)) == trim_start_text(
                v@.subrange(lo as int, hi as int),
            ),
        decreases hi - start,
    {
        assert(v@.subrange(start as int, hi as int).drop_first() =~= v@.subrange(
            start + 1,
            hi as int,
        ));
        start = start + 1;
    }
    start
}

} // verus!

verus! {

/// An occurrence inside the right part of a concatenation is an occurrence in that part.
pub proof fn lemma_occurs_in_right(a: Seq<char>, b: Seq<char>, m: Seq<char>, i: int)
    requires
        occurs_at(a + b, m, i),
        i >= a.len(),
    ensures
        occurs_at(b, m, i - a.len()),
{
    assert((a + b).subrange(i, i + m.len()) =~= b.subrange(i - a.len(), i - a.len() + m.len()));
}

/// An occurrence inside the left part of a concatenation is an occurrence in that part.
pub proof fn lemma_occurs_in_left(a: Seq<char>, b: Seq<char>, m: Seq<char>, i: int)
    requires
        occurs_at(a + b, m, i),
        i + m.len() <= a.len(),
    ensures
        occurs_at(a, m, i),
{
    assert((a + b).subrange(i, i + m.len()) =~= a.subrange(i, i + m.len()));
}

/// The character of an occurrence at offset `k` of the needle.
pub proof fn lemma_occurrence_char(hay: Seq<char>, m: Seq<char>, i: int, k: int)
    requires
        occurs_at(hay, m, i),
        0 <= k < m.len(),
    ensures
        hay[i + k] == m[k],
{
    assert(hay.subrange(i, i + m.len())[k] == m[k]);
}

} // verus!

verus! {

/// `c` is an ASCII decimal digit.
pub open spec fn is_digit(c: char) -> bool {
    '0' <= c <= '9'
}

/// Every character of `s` is an ASCII decimal digit.
pub open spec fn all_digits(s: Seq<char>) -> bool {
    forall|i: int| 0 <= i < s.len() ==> is_digit(#[trigger] s[i])
}

/// The number that the decimal digits `s` denote.
pub open spec fn digits_value(s: Seq<char>) -> nat
    decreases s.len(),
{
    if s.len() == 0 {
        0
    } else {
        digits_value(s.drop_last()) * 10 + ((s.last() as u32) - 48) as nat
    }
}

/// The digits that follow an optional leading sign.
pub open spec fn unsigned_part(s: Seq<char>) -> Seq<char> {
    if s.len() > 0 && (s[0] == '+' || s[0] == '-') {
        s.drop_first()
    } else {
        s
    }
}

/// What `str::parse::<u32>` gives: an optional `+` followed by at least one ASCII digit,
/// denoting a value that fits in `u32`.
pub open spec fn parsed_u32(s: Seq<char>) -> Option<u32> {
    let d = if s.len() > 0 && s[0] == '+' { s.drop_first() } else { s };
    if d.len() > 0 && all_digits(d) && digits_value(d) <= u32::MAX {
        Some(digits_value(d) as u32)
    } else {
        None
    }
}

/// What `str::parse::<i64>` gives: an optional sign followed by at least one ASCII digit,
/// denoting a value that fits in `i64`.
pub open spec fn parsed_i64(s: Seq<char>) -> Option<i64> {
    let d = unsigned_part(s);
    let neg = s.len() > 0 && s[0] == '-';
    if d.len() > 0 && all_digits(d) {
        if neg && digits_value(d) <= 0x8000_0000_0000_0000 {
            Some((0 - digits_value(d)) as i64)
        } else if !neg && digits_value(d) <= i64::MAX {
            Some(digits_value(d) as i64)
        } else {
            None
        }
    } else {
        None
    }
}

/// Parsing reads decimal notation back: the decimal text of every `u32` parses to it, with or
/// without a leading `+`.
pub proof fn lemma_parse_u32_reads_decimal(n: u32)
    ensures
        parsed_u32(nat_text(n as nat)) == Some(n),
        parsed_u32(seq!['+'] + nat_text(n as nat)) == Some(n),
{
    let t = nat_text(n as nat);
    lemma_nat_text_reads_back(n as nat);
    assert(all_digits(t));
    assert((seq!['+'] + t).drop_first() =~= t);
}

/// Parsing reads decimal notation back: the decimal text of every `i64` (with its `-` when
/// negative) parses to it.
pub proof fn lemma_parse_i64_reads_decimal(x: i64)
    ensures
        parsed_i64(int_text(x as int)) == Some(x),
{
    if x < 0 {
        let m = (-x) as nat;
        let t = nat_text(m);
        lemma_nat_text_reads_back(m);
        let s = seq!['-'] + t;
        assert(s.drop_first() =~= t);
        assert(unsigned_part(s) == t);
        assert(all_digits(t));
    } else {
        let t = nat_text(x as nat);
        lemma_nat_text_reads_back(x as nat);
        assert(t[0] != '-' && t[0] != '+');
        assert(unsigned_part(t) == t);
        assert(all_digits(t));
    }
}

/// A text with a character that is neither a digit nor a leading sign does not parse.
pub proof fn lemma_parse_rejects_non_digits(s: Seq<char>, i: int)
    requires
        0 < i < s.len() || (i == 0 && s.len() > 0 && s[0] != '+' && s[0] != '-'),
        !is_digit(s[i]),
    ensures
        parsed_i64(s) is None,
        parsed_u32(s) is None,
{
    let d = unsigned_part(s);
    if s.len() > 0 && (s[0] == '+' || s[0] == '-') {
        assert(d[i - 1] == s[i]);
    } else {
        assert(d[i] == s[i]);
    }
    let e = if s.len() > 0 && s[0] == '+' { s.drop_first() } else { s };
    if s.len() > 0 && s[0] == '+' {
        assert(e[i - 1] == s[i]);
    } else {
        assert(e[i] == s[i]);
    }
}

proof fn lemma_digits_value_step(s: Seq<char>, i: int)
    requires
        0 <= i < s.len(),
    ensures
        digits_value(s.take(i + 1)) == digits_value(s.take(i)) * 10 + ((s[i] as u32) - 48) as nat,
{
    assert(s.take(i + 1).drop_last() =~= s.take(i));
}

proof fn lemma_digits_value_grows(s: Seq<char>, i: int, j: int)
    requires
        0 <= i <= j <= s.len(),
        all_digits(s),
    ensures
        digits_value(s.take(i)) <= digits_value(s.take(j)),
    decreases j - i,
{
    if i < j {
        lemma_digits_value_grows(s, i, j - 1);
        lemma_digits_value_step(s, j - 1);
    }
}

/// The value of the digits `v[lo..hi]`, or `None` when one of them is not an ASCII digit or
/// the value exceeds `bound`.
fn digits_upto(v: &Vec<char>, lo: usize, hi: usize, bound: u64) -> (r: Option<u64>)
    requires
        lo <= hi <= v.len(),
    ensures
        ({
            let d = v@.subrange(lo as int, hi as int);
            match r {
                Some(x) => all_digits(d) && x == digits_value(d) && x <= bound,
                None => !all_digits(d) || digits_value(d) > bound,
            }
        }),
{
    let ghost d = v@.subrange(lo as int, hi as int);
    let mut acc: u128 = 0;
    let mut i = lo;
    while i < hi
        invariant
            lo <= i <= hi <= v.len(),
            d == v@.subrange(lo as int, hi as int),
            all_digits(d.take(i - lo)),
            acc == digits_value(d.take(i - lo)),
            acc <= bound,
        decreases hi - i,
    {
        let c = v[i];
        if !('0' <= c && c <= '9') {
            assert(!is_digit(d[i - lo]));
            return None;
        }
        proof {
            lemma_digits_value_step(d, i - lo);
        }
        let digit: u128 = ((c as u32) - 48) as u128;
        acc = acc * 10 + digit;
        i = i + 1;
        assert(all_digits(d.take(i - lo))) by {
            assert forall|k: int| 0 <= k < i - lo implies is_digit(#[trigger] d.take(i - lo)[k]) by {
                if k < i - 1 - lo {
                    assert(d.take(i - 1 - lo)[k] == d[k]);
                }
            }
        }
        if acc > bound as u128 {
            proof {
                if all_digits(d) {
                    lemma_digits_value_grows(d, i - lo, d.len() as int);
                    assert(d.take(d.len() as int) =~= d);
                }
            }
            return None;
        }
    }
    assert(d.take(hi - lo) =~= d);
    Some(acc as u64)
}

/// `str::parse::<u32>`.
pub fn parse_u32(s: &str) -> (r: Option<u32>)
    ensures
        r == parsed_u32(s@),
{
    let v = chars_of(s);
    let lo: usize = if v.len() > 0 && v[0] == '+' { 1 } else { 0 };
    proof {
        if lo == 1 {
            assert(v@.subrange(1, v@.len() as int) =~= s@.drop_first());
        } else {
            assert(v@.subrange(0, v@.len() as int) =~= s@);
        }
    }
    if lo == v.len() {
        return None;
    }
    match digits_upto(&v, lo, v.len(), 0xffff_ffff) {
        Some(x) => Some(x as u32),
        None => None,
    }
}

/// `str::parse::<i64>`.
pub fn parse_i64(s: &str) -> (r: Option<i64>)
    ensures
        r == parsed_i64(s@),
{
    let v = chars_of(s);
    let signed = v.len() > 0 && (v[0] == '+' || v[0] == '-');
    let neg = v.len() > 0 && v[0] == '-';
    let lo: usize = if signed { 1 } else { 0 };
    proof {
        if lo == 1 {
            assert(v@.subrange(1, v@.len() as int) =~= unsigned_part(s@));
        } else {
            assert(v@.subrange(0, v@.len() as int) =~= unsigned_part(s@));
        }
    }
    if lo == v.len() {
        return None;
    }
    if neg {
        match digits_upto(&v, lo, v.len(), 0x8000_0000_0000_0000) {
            Some(x) => Some((0i128 - (x as i128)) as i64),
            None => None,
        }
    } else {
        match digits_upto(&v, lo, v.len(), 0x7fff_ffff_ffff_ffff) {
            Some(x) => Some(x as i64),
            None => None,
        }
    }
}

} // verus!

verus! {

/// `a` comes no later than `b` in lexicographic order of code points (the order of `str`).
pub open spec fn text_le(a: Seq<char>, b: Seq<char>) -> bool
    decreases a.len(),
{
    if a.len() == 0 {
        true
    } else if b.len() == 0 {
        false
    } else if a[0] != b[0] {
        a[0] < b[0]
    } else {
        text_le(a.drop_first(), b.drop_first())
    }
}

/// Any two texts are ordered one way or the other.
pub proof fn lemma_text_le_total(a: Seq<char>, b: Seq<char>)
    ensures
        text_le(a, b) || text_le(b, a),
    decreases a.len(),
{
    if a.len() > 0 && b.len() > 0 && a[0] == b[0] {
        lemma_text_le_total(a.drop_first(), b.drop_first());
    }
}

/// The order is transitive.
pub proof fn lemma_text_le_transitive(a: Seq<char>, b: Seq<char>, c: Seq<char>)
    requires
        text_le(a, b),
        text_le(b, c),
    ensures
        text_le(a, c),
    decreases a.len(),
{
    if a.len() > 0 && b.len() > 0 && c.len() > 0 && a[0] == b[0] && b[0] == c[0] {
        lemma_text_le_transitive(a.drop_first(), b.drop_first(), c.drop_first());
    }
}

/// The order of texts is decided at their first difference: whatever the common prefix `p`
/// (a `/` in it included) and whatever follows, a text whose first differing character is
/// smaller comes first.
pub proof fn lemma_text_le_first_difference(p: Seq<char>, x: char, y: char, s: Seq<char>, t: Seq<char>)
    requires
        x != y,
    ensures
        text_le(p + seq![x] + s, p + seq![y] + t) == (x < y),
    decreases p.len(),
{
    let a = p + seq![x] + s;
    let b = p + seq![y] + t;
    if p.len() == 0 {
        assert(a[0] == x);
        assert(b[0] == y);
    } else {
        assert(a[0] == p[0]);
        assert(b[0] == p[0]);
        assert(a.drop_first() =~= p.drop_first() + seq![x] + s);
        assert(b.drop_first() =~= p.drop_first() + seq![y] + t);
        lemma_text_le_first_difference(p.drop_first(), x, y, s, t);
    }
}

/// A text comes before every text it is a prefix of, and a longer text never comes before its
/// own prefix.
pub proof fn lemma_text_le_prefix(p: Seq<char>, s: Seq<char>)
    ensures
        text_le(p, p + s),
        s.len() > 0 ==> !text_le(p + s, p),
    decreases p.len(),
{
    if p.len() > 0 {
        assert((p + s)[0] == p[0]);
        assert((p + s).drop_first() =~= p.drop_first() + s);
        lemma_text_le_prefix(p.drop_first(), s);
    } else {
        assert(p + s =~= s);
    }
}

/// Whether `a` comes no later than `b` in lexicographic order.
pub fn text_le_exec(a: &str, b: &str) -> (r: bool)
    ensures
        r == text_le(a@, b@),
{
    let x = chars_of(a);
    let y = chars_of(b);
    let mut i: usize = 0;
    assert(x@.skip(0) =~= a@);
    assert(y@.skip(0) =~= b@);
    while i < x.len() && i < y.len() && x[i] == y[i]
        invariant
            i <= x.len(),
            i <= y.len(),
            text_le(a@, b@) == text_le(x@.skip(i as int), y@.skip(i as int)),
            x@ == a@,
            y@ == b@,
        decreases x.len() - i,
    {
        assert(x@.skip(i as int).drop_first() =~= x@.skip(i + 1));
        assert(y@.skip(i as int).drop_first() =~= y@.skip(i + 1));
        i = i + 1;
    }
    if i == x.len() {
        true
    } else if i == y.len() {
        false
    } else {
        x[i] < y[i]
    }
}

} // verus!
