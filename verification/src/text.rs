//! Text: searching, trimming, reading numbers, and writing parts of URLs.

use vstd::prelude::*;
use vstd::string::*;

verus! {

/// `String::push` of std: the character comes behind what the string held.
pub assume_specification[ String::push ](s: &mut String, c: char)
    ensures
        final(s)@ == old(s)@.push(c),
;

/// The views of a list of strings.
pub open spec fn texts(list: Seq<String>) -> Seq<Seq<char>> {
    Seq::new(list.len(), |i: int| list[i]@)
}

/// The view of an optional string.
pub open spec fn opt_text(s: Option<String>) -> Option<Seq<char>> {
    match s {
        Some(s) => Some(s@),
        None => None,
    }
}

/// The characters of `s`.
pub fn chars_of(s: &str) -> (r: Vec<char>)
    ensures
        r@ == s@,
{
    let mut r: Vec<char> = Vec::new();
    for c in it: s.chars()
        invariant
            it.seq() == s@,
            r@ == s@.take(it.index() as int),
    {
        r.push(c);
    }
    r
}

/// The characters of `cs` from `from` up to, but without, `to`.
pub fn text_between(cs: &Vec<char>, from: usize, to: usize) -> (r: String)
    requires
        from <= to <= cs@.len(),
    ensures
        r@ == cs@.subrange(from as int, to as int),
{
    let mut r = String::new();
    let mut i: usize = from;
    while i < to
        invariant
            from <= i <= to <= cs@.len(),
            r@ == cs@.subrange(from as int, i as int),
        decreases to - i,
    {
        r.push(cs[i]);
        i = i + 1;
    }
    r
}

/// `a` followed by `b`.
pub fn join(a: &str, b: &str) -> (r: String)
    ensures
        r@ == a@ + b@,
{
    let mut r = a.to_owned();
    r.append(b);
    r
}

/// `p` stands in `s` at position `i`.
pub open spec fn occurs_at(s: Seq<char>, p: Seq<char>, i: int) -> bool {
    &&& 0 <= i
    &&& i + p.len() <= s.len()
    &&& s.subrange(i, i + p.len()) == p
}

/// `p` stands somewhere in `s`.
pub open spec fn contains_text(s: Seq<char>, p: Seq<char>) -> bool {
    exists|i: int| occurs_at(s, p, i)
}

/// The first position from `i` on at which `p` stands in `s`.
pub open spec fn first_from(s: Seq<char>, p: Seq<char>, i: int) -> Option<int>
    decreases s.len() + 1 - i,
{
    if i < 0 || i + p.len() > s.len() {
        None
    } else if occurs_at(s, p, i) {
        Some(i)
    } else {
        first_from(s, p, i + 1)
    }
}

/// The first position at which `p` stands in `s`.
pub open spec fn first_of(s: Seq<char>, p: Seq<char>) -> Option<int> {
    first_from(s, p, 0)
}

/// What `first_from` finds is the least position from `i` on at which `p` stands in `s`.
proof fn lemma_first_from(s: Seq<char>, p: Seq<char>, i: int)
    requires
        0 <= i,
    ensures
        first_from(s, p, i) matches Some(k) ==> {
            &&& i <= k
            &&& occurs_at(s, p, k)
            &&& forall|j: int| i <= j < k ==> !occurs_at(s, p, j)
        },
        first_from(s, p, i) is None ==> forall|j: int| i <= j ==> !occurs_at(s, p, j),
    decreases s.len() + 1 - i,
{
    if i + p.len() <= s.len() && !occurs_at(s, p, i) {
        lemma_first_from(s, p, i + 1);
    }
}

/// `first_of` finds a position exactly where there is one, and then the least.
pub proof fn lemma_first_of(s: Seq<char>, p: Seq<char>)
    ensures
        first_of(s, p) is Some <==> contains_text(s, p),
        first_of(s, p) matches Some(k) ==> {
            &&& occurs_at(s, p, k)
            &&& forall|j: int| 0 <= j < k ==> !occurs_at(s, p, j)
        },
{
    lemma_first_from(s, p, 0);
    if contains_text(s, p) {
        let i = choose|i: int| occurs_at(s, p, i);
        assert(occurs_at(s, p, i));
    }
}

/// Whether `p` stands in `s` at position `at`.
fn stands_at(s: &Vec<char>, p: &Vec<char>, at: usize) -> (r: bool)
    requires
        at + p@.len() <= s@.len(),
    ensures
        r == occurs_at(s@, p@, at as int),
{
    let len: usize = s.len();
    let mut i: usize = 0;
    while i < p.len()
        invariant
            len == s@.len(),
            at + p@.len() <= s@.len(),
            i <= p@.len(),
            forall|j: int| 0 <= j < i ==> s@[at + j] == p@[j],
        decreases p@.len() - i,
    {
        if s[at + i] != p[i] {
            assert(s@.subrange(at as int, at + p@.len())[i as int] != p@[i as int]);
            return false;
        }
        i = i + 1;
    }
    assert(s@.subrange(at as int, at + p@.len()) =~= p@);
    true
}

/// The first position at which `p` stands in `s`.
pub fn find(s: &Vec<char>, p: &Vec<char>) -> (r: Option<usize>)
    ensures
        r is Some <==> first_of(s@, p@) is Some,
        r is Some ==> r->Some_0 == first_of(s@, p@)->Some_0,
{
    let mut i: usize = 0;
    if p.len() > s.len() {
        return None;
    }
    let last: usize = s.len() - p.len();
    while i <= last
        invariant
            p@.len() <= s@.len(),
            last == s@.len() - p@.len(),
            i <= last + 1,
            first_of(s@, p@) == first_from(s@, p@, i as int),
        decreases last + 1 - i,
    {
        if stands_at(s, p, i) {
            return Some(i);
        }
        if i == last {
            assert(first_from(s@, p@, last + 1) is None);
            return None;
        }
        i = i + 1;
    }
    None
}

/// Whether `p` stands somewhere in `s`.
pub fn contains(s: &str, p: &str) -> (r: bool)
    ensures
        r == contains_text(s@, p@),
{
    proof {
        lemma_first_of(s@, p@);
    }
    find(&chars_of(s), &chars_of(p)).is_some()
}

/// `s` without the run of `c` at its end.
pub open spec fn without_end(s: Seq<char>, c: char) -> Seq<char>
    decreases s.len(),
{
    if s.len() > 0 && s.last() == c {
        without_end(s.drop_last(), c)
    } else {
        s
    }
}

/// `s` without the copies of `p` that it starts with.
pub open spec fn without_start(s: Seq<char>, p: Seq<char>) -> Seq<char>
    decreases s.len(),
{
    if p.len() > 0 && p.is_prefix_of(s) {
        without_start(s.skip(p.len() as int), p)
    } else {
        s
    }
}

/// The characters with the Unicode property White_Space.
pub open spec fn white_space(c: char) -> bool {
    ||| '\u{9}' <= c <= '\u{d}'
    ||| c == '\u{20}'
    ||| c == '\u{85}'
    ||| c == '\u{a0}'
    ||| c == '\u{1680}'
    ||| '\u{2000}' <= c <= '\u{200a}'
    ||| c == '\u{2028}'
    ||| c == '\u{2029}'
    ||| c == '\u{202f}'
    ||| c == '\u{205f}'
    ||| c == '\u{3000}'
}

/// Whether `c` is white space.
pub fn is_white_space(c: char) -> (r: bool)
    ensures
        r == white_space(c),
{
    ('\u{9}' <= c && c <= '\u{d}') || c == '\u{20}' || c == '\u{85}' || c == '\u{a0}' || c
        == '\u{1680}' || ('\u{2000}' <= c && c <= '\u{200a}') || c == '\u{2028}' || c == '\u{2029}'
        || c == '\u{202f}' || c == '\u{205f}' || c == '\u{3000}'
}

/// `s` without the white space at its start.
pub open spec fn trimmed_start(s: Seq<char>) -> Seq<char>
    decreases s.len(),
{
    if s.len() > 0 && white_space(s[0]) {
        trimmed_start(s.drop_first())
    } else {
        s
    }
}

/// `s` without the white space at its end.
pub open spec fn trimmed_end(s: Seq<char>) -> Seq<char>
    decreases s.len(),
{
    if s.len() > 0 && white_space(s.last()) {
        trimmed_end(s.drop_last())
    } else {
        s
    }
}

/// `s` without the white space at both ends.
pub open spec fn trimmed(s: Seq<char>) -> Seq<char> {
    trimmed_end(trimmed_start(s))
}

/// `s` without the run of `c` at its end.
pub fn trim_end_char(s: &str, c: char) -> (r: String)
    ensures
        r@ == without_end(s@, c),
{
    let cs = chars_of(s);
    let mut end: usize = cs.len();
    assert(cs@.take(end as int) =~= s@);
    while end > 0 && cs[end - 1] == c
        invariant
            cs@ == s@,
            end <= cs@.len(),
            without_end(s@, c) == without_end(cs@.take(end as int), c),
        decreases end,
    {
        assert(cs@.take(end as int).drop_last() =~= cs@.take(end - 1));
        end = end - 1;
    }
    text_between(&cs, 0, end)
}

/// `s` without the copies of `p` that it starts with.
pub fn trim_start_text(s: &str, p: &str) -> (r: String)
    ensures
        r@ == without_start(s@, p@),
{
    let cs = chars_of(s);
    let ps = chars_of(p);
    if ps.len() == 0 {
        return s.to_owned();
    }
    let len: usize = cs.len();
    let step: usize = ps.len();
    let mut from: usize = 0;
    assert(cs@.skip(0) =~= s@);
    while step <= len - from && stands_at(&cs, &ps, from)
        invariant
            cs@ == s@,
            ps@ == p@,
            step == ps@.len(),
            step > 0,
            len == cs@.len(),
            from <= len,
            without_start(s@, p@) == without_start(cs@.skip(from as int), p@),
        decreases len - from,
    {
        assert(cs@.subrange(from as int, from + step) =~= cs@.skip(from as int).take(step as int));
        assert(p@.is_prefix_of(cs@.skip(from as int)));
        assert(cs@.skip(from as int).skip(step as int) =~= cs@.skip(from + step));
        from = from + step;
    }
    assert(!p@.is_prefix_of(cs@.skip(from as int))) by {
        if p@.is_prefix_of(cs@.skip(from as int)) {
            assert(cs@.subrange(from as int, from + step) =~= p@);
        }
    }
    text_between(&cs, from, len)
}

/// `s` without the white space at both ends.
pub fn trim(s: &str) -> (r: String)
    ensures
        r@ == trimmed(s@),
{
    let cs = chars_of(s);
    let mut end: usize = cs.len();
    let mut from: usize = 0;
    assert(cs@.subrange(0, end as int) =~= s@);
    while from < end && is_white_space(cs[from])
        invariant
            cs@ == s@,
            from <= end == cs@.len(),
            trimmed_start(s@) == trimmed_start(cs@.subrange(from as int, end as int)),
        decreases end - from,
    {
        assert(cs@.subrange(from as int, end as int).drop_first() =~= cs@.subrange(
            from + 1,
            end as int,
        ));
        from = from + 1;
    }
    while from < end && is_white_space(cs[end - 1])
        invariant
            cs@ == s@,
            from <= end <= cs@.len(),
            trimmed(s@) == trimmed_end(cs@.subrange(from as int, end as int)),
        decreases end - from,
    {
        assert(cs@.subrange(from as int, end as int).drop_last() =~= cs@.subrange(
            from as int,
            end - 1,
        ));
        end = end - 1;
    }
    text_between(&cs, from, end)
}

/// `c` is one of the ten ASCII digits.
pub open spec fn digit(c: char) -> bool {
    '0' <= c <= '9'
}

/// The number that a row of digits writes.
pub open spec fn decimal(s: Seq<char>) -> int
    decreases s.len(),
{
    if s.len() == 0 {
        0
    } else {
        10 * decimal(s.drop_last()) + (s.last() as int - '0' as int)
    }
}

/// The number that `s` writes in digits alone, up to `max`.
pub open spec fn digits_up_to(s: Seq<char>, max: int) -> Option<int> {
    if s.len() > 0 && (forall|i: int| 0 <= i < s.len() ==> digit(#[trigger] s[i])) && decimal(s)
        <= max {
        Some(decimal(s))
    } else {
        None
    }
}

/// The number that `s` writes in digits, behind a plus sign or not, up to `max`.
pub open spec fn number_up_to(s: Seq<char>, max: int) -> Option<int> {
    if s.len() > 0 && s[0] == '+' {
        digits_up_to(s.skip(1), max)
    } else {
        digits_up_to(s, max)
    }
}

/// The digits of `s`, in their order.
pub open spec fn digits_of(s: Seq<char>) -> Seq<char>
    decreases s.len(),
{
    if s.len() == 0 {
        s
    } else if digit(s.last()) {
        digits_of(s.drop_last()).push(s.last())
    } else {
        digits_of(s.drop_last())
    }
}

/// More digits write no smaller number.
proof fn lemma_decimal_grows(s: Seq<char>, k: int)
    requires
        0 <= k <= s.len(),
        forall|i: int| 0 <= i < s.len() ==> digit(#[trigger] s[i]),
    ensures
        0 <= decimal(s.take(k)) <= decimal(s),
    decreases s.len(),
{
    if k == s.len() {
        assert(s.take(k) =~= s);
        if k > 0 {
            lemma_decimal_grows(s.drop_last(), k - 1);
        }
    } else {
        lemma_decimal_grows(s.drop_last(), k);
        assert(s.drop_last().take(k) =~= s.take(k));
        assert(digit(s.last()));
    }
}

/// The digits of `s`, in their order.
pub fn digits_in(s: &str) -> (r: Vec<char>)
    ensures
        r@ == digits_of(s@),
{
    let cs = chars_of(s);
    let mut r: Vec<char> = Vec::new();
    let mut i: usize = 0;
    while i < cs.len()
        invariant
            cs@ == s@,
            i <= cs@.len(),
            r@ == digits_of(cs@.take(i as int)),
        decreases cs@.len() - i,
    {
        assert(cs@.take(i + 1).drop_last() =~= cs@.take(i as int));
        if '0' <= cs[i] && cs[i] <= '9' {
            r.push(cs[i]);
        }
        i = i + 1;
    }
    assert(cs@.take(i as int) =~= s@);
    r
}

/// The number that the characters of `cs` from `from` on write in digits alone, up to `max`.
pub fn parse_digits(cs: &Vec<char>, from: usize, max: u64) -> (r: Option<u64>)
    requires
        from <= cs@.len(),
    ensures
        r is Some <==> digits_up_to(cs@.skip(from as int), max as int) is Some,
        r is Some ==> r->Some_0 == digits_up_to(cs@.skip(from as int), max as int)->Some_0,
{
    let ghost s = cs@.skip(from as int);
    if from == cs.len() {
        return None;
    }
    let mut n: u64 = 0;
    let mut i: usize = from;
    while i < cs.len()
        invariant
            s == cs@.skip(from as int),
            from <= i <= cs@.len(),
            forall|j: int| 0 <= j < i - from ==> digit(#[trigger] s[j]),
            n == decimal(s.take(i - from)),
            n <= max,
        decreases cs@.len() - i,
    {
        let c = cs[i];
        assert(c == s[i - from]);
        if !('0' <= c && c <= '9') {
            return None;
        }
        let d: u64 = (c as u32 - '0' as u32) as u64;
        assert(s.take(i - from + 1).drop_last() =~= s.take(i - from));
        if d > max || n > (max - d) / 10 {
            proof {
                assert(decimal(s.take(i - from + 1)) > max);
                if digits_up_to(s, max as int) is Some {
                    lemma_decimal_grows(s, i - from + 1);
                }
            }
            return None;
        }
        n = 10 * n + d;
        i = i + 1;
    }
    assert(s.take(i - from) =~= s);
    Some(n)
}

/// The number that `s` writes in digits, behind a plus sign or not, where a `u32` can hold it.
pub fn parse_u32(s: &str) -> (r: Option<u32>)
    ensures
        r is Some <==> number_up_to(s@, u32::MAX as int) is Some,
        r is Some ==> r->Some_0 == number_up_to(s@, u32::MAX as int)->Some_0,
{
    let cs = chars_of(s);
    let from: usize = if cs.len() > 0 && cs[0] == '+' {
        1
    } else {
        0
    };
    assert(cs@.skip(0) =~= s@);
    match parse_digits(&cs, from, u32::MAX as u64) {
        Some(n) => Some(n as u32),
        None => None,
    }
}

/// How `c` is written in a URL.
pub open spec fn escaped(c: char) -> Seq<char> {
    if c == ' ' {
        seq!['%', '2', '0']
    } else if c == '/' {
        seq!['%', '2', 'F']
    } else if c == '?' {
        seq!['%', '3', 'F']
    } else if c == '#' {
        seq!['%', '2', '3']
    } else if c == '&' {
        seq!['%', '2', '6']
    } else {
        seq![c]
    }
}

/// How `s` is written in a URL, character by character.
pub open spec fn encoded(s: Seq<char>) -> Seq<char>
    decreases s.len(),
{
    if s.len() == 0 {
        s
    } else {
        encoded(s.drop_last()) + escaped(s.last())
    }
}

/// Writes `s` for use as a part of a URL.
pub fn enc(s: &str) -> (r: String)
    ensures
        r@ == encoded(s@),
{
    let mut r = String::new();
    for c in it: s.chars()
        invariant
            it.seq() == s@,
            r@ == encoded(s@.take(it.index() as int)),
    {
        let ghost before = r@;
        assert(s@.take(it.index() + 1).drop_last() =~= s@.take(it.index() as int));
        if c == ' ' {
            r.push('%');
            r.push('2');
            r.push('0');
        } else if c == '/' {
            r.push('%');
            r.push('2');
            r.push('F');
        } else if c == '?' {
            r.push('%');
            r.push('3');
            r.push('F');
        } else if c == '#' {
            r.push('%');
            r.push('2');
            r.push('3');
        } else if c == '&' {
            r.push('%');
            r.push('2');
            r.push('6');
        } else {
            r.push(c);
        }
        assert(r@ =~= before + escaped(c));
    }
    assert(s@.take(s@.len() as int) =~= s@);
    r
}

/// How many bytes of an identifier `short` keeps.
pub open spec fn short_len(id: &str) -> int {
    if id.spec_bytes().len() < 8 {
        id.spec_bytes().len() as int
    } else {
        8
    }
}

/// The first eight bytes of `id`, or all of it where it is shorter.
pub fn short(id: &str) -> (r: &str)
    requires
        id.spec_bytes().len() > 8 ==> vstd::utf8::is_char_boundary(id.spec_bytes(), 8),
    ensures
        r.spec_bytes() == id.spec_bytes().subrange(0, short_len(id)),
{
    let len: usize = id.as_bytes().len();
    let kept: usize = if len < 8 {
        len
    } else {
        8
    };
    proof {
        vstd::utf8::encode_utf8_valid_utf8(id@);
        vstd::utf8::is_char_boundary_start_end_of_seq(id.spec_bytes());
    }
    id.split_at(kept).0
}

/// `c` has a meaning of its own in a URL and is not written as it is.
pub open spec fn reserved(c: char) -> bool {
    c == ' ' || c == '/' || c == '?' || c == '#' || c == '&'
}

/// What is written for a URL holds no character that has a meaning of its own there.
pub proof fn law_encoded_text_holds_nothing_reserved(s: Seq<char>)
    ensures
        forall|i: int| 0 <= i < encoded(s).len() ==> !reserved(#[trigger] encoded(s)[i]),
    decreases s.len(),
{
    if s.len() > 0 {
        let start = encoded(s.drop_last());
        law_encoded_text_holds_nothing_reserved(s.drop_last());
        assert forall|i: int| 0 <= i < encoded(s).len() implies !reserved(
            #[trigger] encoded(s)[i],
        ) by {
            if i < start.len() {
                assert(encoded(s)[i] == start[i]);
            } else {
                assert(encoded(s)[i] == escaped(s.last())[i - start.len()]);
            }
        }
    }
}

/// A text without such characters is written as it is.
pub proof fn law_plain_text_is_kept(s: Seq<char>)
    requires
        forall|i: int| 0 <= i < s.len() ==> !reserved(#[trigger] s[i]),
    ensures
        encoded(s) == s,
    decreases s.len(),
{
    if s.len() > 0 {
        assert(!reserved(s[s.len() - 1]));
        law_plain_text_is_kept(s.drop_last());
        assert(s.drop_last() + seq![s.last()] =~= s);
    }
}

/// Two texts one behind the other are written one behind the other.
pub proof fn law_texts_are_encoded_one_by_one(a: Seq<char>, b: Seq<char>)
    ensures
        encoded(a + b) == encoded(a) + encoded(b),
    decreases b.len(),
{
    if b.len() == 0 {
        assert(a + b =~= a);
        assert(encoded(a) + encoded(b) =~= encoded(a));
    } else {
        assert((a + b).drop_last() =~= a + b.drop_last());
        law_texts_are_encoded_one_by_one(a, b.drop_last());
        assert(encoded(a) + (encoded(b.drop_last()) + escaped(b.last())) =~= (encoded(a) + encoded(
            b.drop_last(),
        )) + escaped(b.last()));
    }
}

/// The character that two digits behind a percent sign stand for.
pub open spec fn unescaped(high: char, low: char) -> char {
    if high == '2' && low == '0' {
        ' '
    } else if high == '2' && low == 'F' {
        '/'
    } else if high == '3' && low == 'F' {
        '?'
    } else if high == '2' && low == '3' {
        '#'
    } else {
        '&'
    }
}

/// What was written for a URL, read back.
pub open spec fn decoded(t: Seq<char>) -> Seq<char>
    decreases t.len(),
{
    if t.len() == 0 {
        t
    } else if t[0] == '%' && t.len() >= 3 {
        seq![unescaped(t[1], t[2])] + decoded(t.skip(3))
    } else {
        seq![t[0]] + decoded(t.skip(1))
    }
}

/// A text without a percent sign can be read back from what is written for it.
pub proof fn law_encoding_can_be_undone(s: Seq<char>)
    requires
        forall|i: int| 0 <= i < s.len() ==> #[trigger] s[i] != '%',
    ensures
        decoded(encoded(s)) == s,
    decreases s.len(),
{
    if s.len() > 0 {
        let first = seq![s[0]];
        let rest = s.skip(1);
        assert(s =~= first + rest);
        law_texts_are_encoded_one_by_one(first, rest);
        assert(first.drop_last() =~= Seq::empty());
        assert(encoded(first.drop_last()) =~= Seq::empty());
        assert(encoded(first) =~= escaped(s[0]));
        law_encoding_can_be_undone(rest);
        let t = encoded(s);
        assert(t.skip(escaped(s[0]).len() as int) =~= encoded(rest));
        assert(t[0] == escaped(s[0])[0]);
        if reserved(s[0]) {
            assert(t[1] == escaped(s[0])[1]);
            assert(t[2] == escaped(s[0])[2]);
        }
    }
}

/// Texts without a percent sign that differ are written differently.
pub proof fn law_encoding_tells_texts_apart(a: Seq<char>, b: Seq<char>)
    requires
        forall|i: int| 0 <= i < a.len() ==> #[trigger] a[i] != '%',
        forall|i: int| 0 <= i < b.len() ==> #[trigger] b[i] != '%',
        a != b,
    ensures
        encoded(a) != encoded(b),
{
    law_encoding_can_be_undone(a);
    law_encoding_can_be_undone(b);
}

/// A text whose end was taken off does not end with the character, is the start of what it was,
/// and has lost nothing but that character.
pub proof fn law_end_is_gone(s: Seq<char>, c: char)
    ensures
        without_end(s, c).len() > 0 ==> without_end(s, c).last() != c,
        without_end(s, c).is_prefix_of(s),
        forall|i: int| without_end(s, c).len() <= i < s.len() ==> #[trigger] s[i] == c,
    decreases s.len(),
{
    if s.len() > 0 && s.last() == c {
        law_end_is_gone(s.drop_last(), c);
        assert forall|i: int| without_end(s, c).len() <= i < s.len() implies #[trigger] s[i]
            == c by {
            if i < s.len() - 1 {
                assert(s.drop_last()[i] == c);
            }
        }
    }
}

/// A text whose start was taken off does not start with it any more.
pub proof fn law_start_is_gone(s: Seq<char>, p: Seq<char>)
    requires
        p.len() > 0,
    ensures
        !p.is_prefix_of(without_start(s, p)),
    decreases s.len(),
{
    if p.is_prefix_of(s) {
        law_start_is_gone(s.skip(p.len() as int), p);
    }
}

/// Behind a text that neither starts nor ends with white space, white space is lost at the end
/// alone.
pub proof fn lemma_trimmed_behind(p: Seq<char>, s: Seq<char>)
    requires
        p.len() > 0,
        !white_space(p[0]),
        !white_space(p.last()),
    ensures
        trimmed(p + s) == p + trimmed_end(s),
{
    assert((p + s)[0] == p[0]);
    lemma_trimmed_end_behind(p, s);
}

/// Behind a text that does not end with white space, the end is trimmed as it is by itself.
proof fn lemma_trimmed_end_behind(p: Seq<char>, s: Seq<char>)
    requires
        p.len() > 0,
        !white_space(p.last()),
    ensures
        trimmed_end(p + s) == p + trimmed_end(s),
    decreases s.len(),
{
    if s.len() == 0 {
        assert(p + s =~= p);
        assert(p + trimmed_end(s) =~= p);
    } else {
        assert((p + s).last() == s.last());
        assert((p + s).drop_last() =~= p + s.drop_last());
        lemma_trimmed_end_behind(p, s.drop_last());
    }
}

/// An identifier in ASCII can be cut at any place.
pub proof fn law_ascii_identifier_can_be_shortened(id: &str)
    requires
        vstd::utf8::is_ascii_chars(id@),
    ensures
        id.spec_bytes().len() > 8 ==> vstd::utf8::is_char_boundary(id.spec_bytes(), 8),
{
    let bytes = id.spec_bytes();
    if bytes.len() > 8 {
        is_ascii_spec_bytes(id);
        vstd::utf8::encode_utf8_valid_utf8(id@);
        assert(bytes[8] == id@[8] as u8);
        vstd::utf8::is_char_boundary_iff_not_is_continuation_byte(bytes, 8);
    }
}

/// A list of strings is seen whole and in its order.
pub proof fn law_lists_are_seen_whole(list: Seq<String>)
    ensures
        texts(list).len() == list.len(),
        forall|i: int| 0 <= i < list.len() ==> #[trigger] texts(list)[i] == list[i]@,
{
}

/// A text stands where another reads the same, letter by letter.
pub proof fn law_texts_stand_letter_by_letter(s: Seq<char>, p: Seq<char>, i: int)
    ensures
        occurs_at(s, p, i) <==> 0 <= i && i + p.len() <= s.len() && forall|k: int|
            0 <= k < p.len() ==> s[i + k] == #[trigger] p[k],
{
    if occurs_at(s, p, i) {
        assert forall|k: int| 0 <= k < p.len() implies s[i + k] == #[trigger] p[k] by {
            assert(s.subrange(i, i + p.len())[k] == s[i + k]);
        }
    } else if 0 <= i && i + p.len() <= s.len() && forall|k: int|
        0 <= k < p.len() ==> s[i + k] == #[trigger] p[k] {
        assert(s.subrange(i, i + p.len()) =~= p);
    }
}

/// A text is found in another at the first place at which it stands, and is not found exactly where
/// it stands at none.
pub proof fn law_the_first_place_is_found(s: Seq<char>, p: Seq<char>)
    ensures
        first_of(s, p) is None <==> forall|i: int| !occurs_at(s, p, i),
        forall|k: int|
            first_of(s, p) == Some(k) <==> #[trigger] occurs_at(s, p, k) && forall|j: int|
                0 <= j < k ==> !occurs_at(s, p, j),
        contains_text(s, p) <==> first_of(s, p) is Some,
{
    lemma_first_of(s, p);
    if first_of(s, p) is Some {
        let found = first_of(s, p)->Some_0;
        assert forall|k: int|
            first_of(s, p) == Some(k) <==> #[trigger] occurs_at(s, p, k) && forall|j: int|
                0 <= j < k ==> !occurs_at(s, p, j) by {
            if k < found {
                assert(!occurs_at(s, p, k));
            } else if k > found {
                assert(occurs_at(s, p, found));
            }
        }
    }
}

/// Every copy of a start is taken off, and nothing else.
pub proof fn law_only_the_start_is_taken_off(s: Seq<char>, p: Seq<char>)
    ensures
        without_start(p + s, p) == without_start(s, p),
        !p.is_prefix_of(s) ==> without_start(s, p) == s,
        without_start(s, Seq::empty()) == s,
{
    if p.len() > 0 {
        assert(p.is_prefix_of(p + s));
        assert((p + s).skip(p.len() as int) =~= s);
    } else {
        assert(p + s =~= s);
    }
}

/// White space is what Unicode calls so.
pub proof fn law_white_space_is_that_of_unicode(c: char)
    ensures
        white_space(c) <==> {
            ||| c as int == 9
            ||| c as int == 10
            ||| c as int == 11
            ||| c as int == 12
            ||| c as int == 13
            ||| c as int == 32
            ||| c as int == 133
            ||| c as int == 160
            ||| c as int == 5760
            ||| c as int == 8192
            ||| c as int == 8193
            ||| c as int == 8194
            ||| c as int == 8195
            ||| c as int == 8196
            ||| c as int == 8197
            ||| c as int == 8198
            ||| c as int == 8199
            ||| c as int == 8200
            ||| c as int == 8201
            ||| c as int == 8202
            ||| c as int == 8232
            ||| c as int == 8233
            ||| c as int == 8239
            ||| c as int == 8287
            ||| c as int == 12288
        },
{
}

/// What is left of a text without the white space at its start, and how much of it was lost.
proof fn lemma_trimmed_start(s: Seq<char>) -> (from: int)
    ensures
        0 <= from <= s.len(),
        trimmed_start(s) == s.skip(from),
        forall|i: int| 0 <= i < from ==> white_space(#[trigger] s[i]),
        from < s.len() ==> !white_space(s[from]),
    decreases s.len(),
{
    if s.len() > 0 && white_space(s[0]) {
        let rest = s.drop_first();
        let from = lemma_trimmed_start(rest);
        assert(rest.skip(from) =~= s.skip(from + 1));
        assert forall|i: int| 0 <= i < from + 1 implies white_space(#[trigger] s[i]) by {
            if i > 0 {
                assert(rest[i - 1] == s[i]);
            }
        }
        from + 1
    } else {
        assert(s.skip(0) =~= s);
        0
    }
}

/// What is left of a text without the white space at its end, and how much it is.
proof fn lemma_trimmed_end(s: Seq<char>) -> (to: int)
    ensures
        0 <= to <= s.len(),
        trimmed_end(s) == s.take(to),
        forall|i: int| to <= i < s.len() ==> white_space(#[trigger] s[i]),
        to > 0 ==> !white_space(s[to - 1]),
    decreases s.len(),
{
    if s.len() > 0 && white_space(s.last()) {
        let rest = s.drop_last();
        let to = lemma_trimmed_end(rest);
        assert(rest.take(to) =~= s.take(to));
        assert forall|i: int| to <= i < s.len() implies white_space(#[trigger] s[i]) by {
            if i < rest.len() {
                assert(rest[i] == s[i]);
            }
        }
        to
    } else {
        assert(s.take(s.len() as int) =~= s);
        s.len() as int
    }
}

/// Trimming takes white space off both ends and nothing else: what is left is one piece of the
/// text, all around it is white space, and it neither starts nor ends with any.
pub proof fn law_trimming_takes_white_space_alone(s: Seq<char>)
    ensures
        exists|from: int, to: int|
            {
                &&& 0 <= from <= to <= s.len()
                &&& trimmed(s) == #[trigger] s.subrange(from, to)
                &&& forall|i: int| 0 <= i < from ==> white_space(#[trigger] s[i])
                &&& forall|i: int| to <= i < s.len() ==> white_space(#[trigger] s[i])
            },
        trimmed(s).len() > 0 ==> !white_space(trimmed(s)[0]) && !white_space(trimmed(s).last()),
{
    let from = lemma_trimmed_start(s);
    let rest = trimmed_start(s);
    let kept = lemma_trimmed_end(rest);
    let to = from + kept;
    assert(trimmed(s) =~= s.subrange(from, to));
    assert forall|i: int| to <= i < s.len() implies white_space(#[trigger] s[i]) by {
        assert(rest[i - from] == s[i]);
    }
    if trimmed(s).len() > 0 {
        assert(trimmed(s)[0] == s[from]);
        assert(trimmed(s).last() == rest[kept - 1]);
    }
}

/// White space at the ends of a text makes no difference once it is trimmed, and a text without any
/// there is kept.
pub proof fn law_white_space_around_is_lost(before: Seq<char>, s: Seq<char>, after: Seq<char>)
    requires
        forall|i: int| 0 <= i < before.len() ==> white_space(#[trigger] before[i]),
        forall|i: int| 0 <= i < after.len() ==> white_space(#[trigger] after[i]),
        s.len() > 0 ==> !white_space(s[0]) && !white_space(s.last()),
    ensures
        trimmed(before + s + after) == s,
{
    let t = before + s + after;
    let from = lemma_trimmed_start(t);
    let rest = trimmed_start(t);
    let kept = lemma_trimmed_end(rest);
    let n = before.len() as int;
    let m = (before.len() + s.len()) as int;
    if s.len() > 0 {
        assert(t[n] == s[0]);
        if from < n {
            assert(t[from] == before[from]);
        }
        assert(from == n);
        assert(rest[s.len() - 1] == s.last());
        if kept > s.len() {
            assert(rest[kept - 1] == after[kept - 1 - s.len()]);
        }
        assert(kept == s.len());
        assert(trimmed(t) =~= s);
    } else {
        if from < t.len() {
            if from < n {
                assert(t[from] == before[from]);
            } else {
                assert(t[from] == after[from - m]);
            }
        }
        assert(trimmed(t) =~= s);
    }
}

/// A number is read digit by digit: each further digit counts ten times what was read before and
/// itself, as long as that stays within the bound; whatever holds anything but digits, or none, is
/// no number, and what is no number becomes none by writing on.
pub proof fn law_numbers_are_read_digit_by_digit(s: Seq<char>, c: char, max: int)
    requires
        0 <= max,
    ensures
        digits_up_to(Seq::empty(), max) is None,
        digits_up_to(s.push(c), max) == if !('0' <= c <= '9') {
            None
        } else if s.len() == 0 {
            if c as int - 48 <= max {
                Some(c as int - 48)
            } else {
                None
            }
        } else {
            match digits_up_to(s, max) {
                Some(n) => if 10 * n + (c as int - 48) <= max {
                    Some(10 * n + (c as int - 48))
                } else {
                    None
                },
                None => None,
            }
        },
{
    let t = s.push(c);
    assert(t.drop_last() =~= s);
    assert(t.last() == c);
    if s.len() == 0 {
        assert(s =~= Seq::empty());
        assert(decimal(t) == 10 * decimal(s) + (c as int - '0' as int));
        if '0' <= c <= '9' {
            assert(forall|i: int| 0 <= i < t.len() ==> digit(#[trigger] t[i]));
        } else {
            assert(!digit(t[0]));
        }
    } else if '0' <= c <= '9' {
        if forall|i: int| 0 <= i < s.len() ==> digit(#[trigger] s[i]) {
            assert(forall|i: int| 0 <= i < t.len() ==> digit(#[trigger] t[i]));
            lemma_decimal_grows(t, s.len() as int);
            assert(t.take(s.len() as int) =~= s);
        } else {
            let i = choose|i: int| 0 <= i < s.len() && !digit(#[trigger] s[i]);
            assert(!digit(t[i]));
        }
    } else {
        assert(!digit(t[t.len() - 1]));
    }
}

/// A plus sign before a number makes no difference, and there is no other sign.
pub proof fn law_numbers_may_bear_a_plus_sign(s: Seq<char>, max: int)
    ensures
        number_up_to(seq!['+'] + s, max) == digits_up_to(s, max),
        !(s.len() > 0 && s[0] == '+') ==> number_up_to(s, max) == digits_up_to(s, max),
{
    assert((seq!['+'] + s).skip(1) =~= s);
}

/// A row of digits that is read as a number gives one that is not negative and within the bound.
pub proof fn law_digit_rows_are_bounded(s: Seq<char>, max: int)
    ensures
        digits_up_to(s, max) matches Some(n) ==> 0 <= n <= max,
{
    if digits_up_to(s, max) is Some {
        lemma_decimal_grows(s, 0);
        assert(s.take(0) =~= Seq::empty());
    }
}

/// A number that is read is not negative and within the bound.
pub proof fn law_numbers_are_bounded(s: Seq<char>, max: int)
    ensures
        number_up_to(s, max) matches Some(n) ==> 0 <= n <= max,
{
    law_digit_rows_are_bounded(s, max);
    law_digit_rows_are_bounded(s.skip(1), max);
}

/// The digits of a text are all its characters from `0` to `9`, in their order, and nothing else.
pub proof fn law_digits_are_picked_out(s: Seq<char>)
    ensures
        digits_of(s) == s.filter(|c: char| '0' <= c <= '9'),
    decreases s.len(),
{
    reveal(Seq::filter);
    if s.len() > 0 {
        law_digits_are_picked_out(s.drop_last());
    }
}

/// Each character that has a meaning of its own in a URL is written as a percent sign and its code.
pub proof fn law_reserved_characters_have_codes()
    ensures
        encoded(" "@) == "%20"@,
        encoded("/"@) == "%2F"@,
        encoded("?"@) == "%3F"@,
        encoded("#"@) == "%23"@,
        encoded("&"@) == "%26"@,
{
    reveal_strlit(" ");
    reveal_strlit("/");
    reveal_strlit("?");
    reveal_strlit("#");
    reveal_strlit("&");
    reveal_strlit("%20");
    reveal_strlit("%2F");
    reveal_strlit("%3F");
    reveal_strlit("%23");
    reveal_strlit("%26");
    lemma_encoded_character(" "@);
    lemma_encoded_character("/"@);
    lemma_encoded_character("?"@);
    lemma_encoded_character("#"@);
    lemma_encoded_character("&"@);
    assert(escaped(' ') =~= "%20"@);
    assert(escaped('/') =~= "%2F"@);
    assert(escaped('?') =~= "%3F"@);
    assert(escaped('#') =~= "%23"@);
    assert(escaped('&') =~= "%26"@);
}

/// A text of one character is written as that character is.
proof fn lemma_encoded_character(s: Seq<char>)
    requires
        s.len() == 1,
    ensures
        encoded(s) == escaped(s[0]),
{
    assert(s.drop_last() =~= Seq::empty());
    assert(encoded(s.drop_last()) =~= Seq::empty());
    assert(encoded(s) =~= escaped(s[0]));
}

/// An identifier of up to eight bytes is kept whole, and of a longer one the first eight are.
pub proof fn law_short_identifiers_are_kept(id: &str)
    ensures
        id.spec_bytes().len() <= 8 ==> short_len(id) == id.spec_bytes().len(),
        id.spec_bytes().len() > 8 ==> short_len(id) == 8,
{
}

} // verus!
