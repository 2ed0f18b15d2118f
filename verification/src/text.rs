//! Text primitives: comparison, ordering, trimming, slicing and decimal
//! numbers, over the characters of a string.

use vstd::prelude::*;
use vstd::utf8::*;
use vstd::string::*;

verus! {

/// How two texts compare.
#[derive(Clone, Copy, PartialEq, Eq, Structural, Debug)]
pub enum Order {
    Less,
    Equal,
    Greater,
}

/// The characters of `s`, in order.
pub fn chars_of(s: &str) -> (chars: Vec<char>)
    ensures
        chars@ == s@,
{
    let mut chars: Vec<char> = Vec::new();
    for c in it: s.chars()
        invariant
            it.seq() == s@,
            chars@ == s@.take(it.index() as int),
    {
        chars.push(c);
    }
    chars
}

/// Whether two texts hold the same characters.
pub fn text_eq(a: &str, b: &str) -> (same: bool)
    ensures
        same == (a@ == b@),
{
    let x = chars_of(a);
    let y = chars_of(b);
    if x.len() != y.len() {
        return false;
    }
    let mut i: usize = 0;
    while i < x.len()
        invariant
            x@ == a@,
            y@ == b@,
            x.len() == y.len(),
            i <= x.len(),
            forall|j: int| 0 <= j < i ==> x@[j] == y@[j],
        decreases x.len() - i,
    {
        if x[i] != y[i] {
            return false;
        }
        i += 1;
    }
    assert(a@ =~= b@);
    true
}

/// Lexicographic order by character.
pub open spec fn text_order(a: Seq<char>, b: Seq<char>) -> Order
    decreases a.len(),
{
    if a.len() == 0 && b.len() == 0 {
        Order::Equal
    } else if a.len() == 0 {
        Order::Less
    } else if b.len() == 0 {
        Order::Greater
    } else if (a[0] as int) < (b[0] as int) {
        Order::Less
    } else if (a[0] as int) > (b[0] as int) {
        Order::Greater
    } else {
        text_order(a.skip(1), b.skip(1))
    }
}

fn code_point(c: char) -> (n: u32)
    ensures
        n as int == c as int,
{
    c as u32
}

/// Compares two texts character by character.
pub fn order_text(a: &str, b: &str) -> (order: Order)
    ensures
        order == text_order(a@, b@),
{
    let x = chars_of(a);
    let y = chars_of(b);
    let mut i: usize = 0;
    assert(a@.skip(0) =~= a@);
    assert(b@.skip(0) =~= b@);
    while i < x.len() && i < y.len()
        invariant
            x@ == a@,
            y@ == b@,
            i <= x.len(),
            i <= y.len(),
            text_order(a@, b@) == text_order(a@.skip(i as int), b@.skip(i as int)),
        decreases x.len() - i,
    {
        let ca = code_point(x[i]);
        let cb = code_point(y[i]);
        assert(a@.skip(i as int).skip(1) =~= a@.skip(i + 1));
        assert(b@.skip(i as int).skip(1) =~= b@.skip(i + 1));
        if ca < cb {
            return Order::Less;
        }
        if ca > cb {
            return Order::Greater;
        }
        i += 1;
    }
    if i < x.len() {
        Order::Greater
    } else if i < y.len() {
        Order::Less
    } else {
        Order::Equal
    }
}

/// Two texts are equal in the order exactly when they are the same text.
pub proof fn text_order_equal_is_same(a: Seq<char>, b: Seq<char>)
    ensures
        text_order(a, b) == Order::Equal <==> a == b,
    decreases a.len(),
{
    if a.len() > 0 && b.len() > 0 {
        text_order_equal_is_same(a.skip(1), b.skip(1));
        if a[0] == b[0] && a.skip(1) == b.skip(1) {
            assert(a =~= seq![a[0]] + a.skip(1));
            assert(b =~= seq![b[0]] + b.skip(1));
        }
        if a == b {
            assert(a.skip(1) == b.skip(1));
        }
    } else {
        assert(a.len() == 0 && b.len() == 0 ==> a =~= b);
    }
}

/// Swapping the two texts swaps `Less` and `Greater`.
pub proof fn text_order_is_antisymmetric(a: Seq<char>, b: Seq<char>)
    ensures
        text_order(a, b) == Order::Less <==> text_order(b, a) == Order::Greater,
        text_order(a, b) == Order::Equal <==> text_order(b, a) == Order::Equal,
    decreases a.len(),
{
    if a.len() > 0 && b.len() > 0 {
        text_order_is_antisymmetric(a.skip(1), b.skip(1));
    }
}

/// What comes before what comes before a text comes before it.
pub proof fn text_order_is_transitive(a: Seq<char>, b: Seq<char>, c: Seq<char>)
    requires
        text_order(a, b) == Order::Less,
        text_order(b, c) == Order::Less,
    ensures
        text_order(a, c) == Order::Less,
    decreases a.len(),
{
    if a.len() > 0 && b.len() > 0 && c.len() > 0 {
        if a[0] == b[0] && b[0] == c[0] {
            text_order_is_transitive(a.skip(1), b.skip(1), c.skip(1));
        }
    }
}

/// Whether `c` has the Unicode property White_Space.
pub open spec fn white(c: char) -> bool {
    let n = c as u32;
    ||| 0x9 <= n <= 0xd
    ||| n == 0x20
    ||| n == 0x85
    ||| n == 0xa0
    ||| n == 0x1680
    ||| 0x2000 <= n <= 0x200a
    ||| n == 0x2028
    ||| n == 0x2029
    ||| n == 0x202f
    ||| n == 0x205f
    ||| n == 0x3000
}

/// Whether `c` is white space.
pub fn is_white(c: char) -> (r: bool)
    ensures
        r == white(c),
{
    let n = c as u32;
    (0x9 <= n && n <= 0xd) || n == 0x20 || n == 0x85 || n == 0xa0 || n == 0x1680 || (0x2000 <= n
        && n <= 0x200a) || n == 0x2028 || n == 0x2029 || n == 0x202f || n == 0x205f || n == 0x3000
}

/// `s` without the characters at its end that satisfy `drop`.
pub open spec fn without_suffix(s: Seq<char>, drop: spec_fn(char) -> bool) -> Seq<char>
    decreases s.len(),
{
    if s.len() > 0 && drop(s.last()) {
        without_suffix(s.drop_last(), drop)
    } else {
        s
    }
}

/// `s` without the characters at its start that satisfy `drop`.
pub open spec fn without_prefix(s: Seq<char>, drop: spec_fn(char) -> bool) -> Seq<char>
    decreases s.len(),
{
    if s.len() > 0 && drop(s[0]) {
        without_prefix(s.skip(1), drop)
    } else {
        s
    }
}

/// `s` without the characters at either end that satisfy `drop`.
pub open spec fn stripped(s: Seq<char>, drop: spec_fn(char) -> bool) -> Seq<char> {
    without_prefix(without_suffix(s, drop), drop)
}

/// `s` without the white space at its end.
pub open spec fn end_trimmed(s: Seq<char>) -> Seq<char> {
    without_suffix(s, |c: char| white(c))
}

/// `s` without the white space at either end.
pub open spec fn trimmed(s: Seq<char>) -> Seq<char> {
    stripped(s, |c: char| white(c))
}

/// `s` without the double quotes at either end.
pub open spec fn unquoted(s: Seq<char>) -> Seq<char> {
    stripped(s, |c: char| c == '"')
}

/// Which characters a text is stripped of.
#[derive(Clone, Copy, PartialEq, Eq, Structural, Debug)]
enum Strip {
    White,
    Quote,
}

impl Strip {
    spec fn drops(self) -> spec_fn(char) -> bool {
        match self {
            Strip::White => |c: char| white(c),
            Strip::Quote => |c: char| c == '"',
        }
    }

    fn drop_char(self, c: char) -> (r: bool)
        ensures
            r == self.drops()(c),
    {
        match self {
            Strip::White => is_white(c),
            Strip::Quote => c == '"',
        }
    }
}

/// The length of `s` without the suffix that is stripped.
fn kept_end(s: &Vec<char>, strip: Strip) -> (end: usize)
    ensures
        end <= s.len(),
        s@.take(end as int) == without_suffix(s@, strip.drops()),
        end > 0 ==> !strip.drops()(s@[end - 1]),
{
    let mut end: usize = s.len();
    assert(s@.take(end as int) =~= s@);
    while end > 0 && strip.drop_char(s[end - 1])
        invariant
            end <= s.len(),
            without_suffix(s@, strip.drops()) == without_suffix(
                s@.take(end as int),
                strip.drops(),
            ),
        decreases end,
    {
        assert(s@.take(end as int).drop_last() =~= s@.take(end - 1));
        end -= 1;
    }
    end
}

fn strip_ends(s: &str, strip: Strip) -> (r: &str)
    ensures
        r@ == stripped(s@, strip.drops()),
{
    let chars = chars_of(s);
    let end = kept_end(&chars, strip);
    let mut start: usize = 0;
    let ghost kept = s@.take(end as int);
    assert(kept.skip(0) =~= kept);
    while start < end && strip.drop_char(chars[start])
        invariant
            chars@ == s@,
            start <= end <= s@.len(),
            kept == s@.take(end as int),
            without_prefix(kept, strip.drops()) == without_prefix(
                kept.skip(start as int),
                strip.drops(),
            ),
        decreases end - start,
    {
        assert(kept.skip(start as int).skip(1) =~= kept.skip(start + 1));
        start += 1;
    }
    assert(kept.skip(start as int) =~= s@.subrange(start as int, end as int));
    s.substring_char(start, end)
}

/// `s` without the white space at either end.
pub fn trim(s: &str) -> (r: &str)
    ensures
        r@ == trimmed(s@),
{
    strip_ends(s, Strip::White)
}

/// `s` without the double quotes at either end.
pub fn trim_quotes(s: &str) -> (r: &str)
    ensures
        r@ == unquoted(s@),
{
    strip_ends(s, Strip::Quote)
}

/// Whether the last character of `s` that is not white space is a colon.
pub open spec fn announces(s: Seq<char>) -> bool {
    end_trimmed(s).len() > 0 && end_trimmed(s).last() == ':'
}

/// Whether `s` ends in a colon, white space aside.
pub fn ends_in_colon(s: &str) -> (r: bool)
    ensures
        r == announces(s@),
{
    let chars = chars_of(s);
    let end = kept_end(&chars, Strip::White);
    if end == 0 {
        return false;
    }
    assert(s@.take(end as int).last() == s@[end - 1]);
    chars[end - 1] == ':'
}

/// Whether `tail` is the end of `s`.
pub open spec fn has_suffix(s: Seq<char>, tail: Seq<char>) -> bool {
    tail.len() <= s.len() && s.skip(s.len() - tail.len()) == tail
}

/// Whether `s` ends with `tail`.
pub fn ends_with(s: &str, tail: &str) -> (r: bool)
    ensures
        r == has_suffix(s@, tail@),
{
    let x = chars_of(s);
    let y = chars_of(tail);
    if y.len() > x.len() {
        return false;
    }
    let from: usize = x.len() - y.len();
    let mut i: usize = 0;
    while i < y.len()
        invariant
            x@ == s@,
            y@ == tail@,
            from == x.len() - y.len(),
            y.len() <= x.len(),
            i <= y.len(),
            forall|j: int| 0 <= j < i ==> x@[from + j] == y@[j],
        decreases y.len() - i,
    {
        if x[from + i] != y[i] {
            assert(s@.skip(from as int)[i as int] != tail@[i as int]);
            return false;
        }
        i += 1;
    }
    assert(s@.skip(from as int) =~= tail@);
    true
}

/// Whether the bytes from `start` up to `end` of the UTF-8 encoding of `s` are
/// whole characters.
pub open spec fn sliceable(s: Seq<char>, start: int, end: int) -> bool {
    &&& 0 <= start <= end <= encode_utf8(s).len()
    &&& is_char_boundary(encode_utf8(s), start)
    &&& is_char_boundary(encode_utf8(s), end)
}

/// The characters whose UTF-8 encoding stands from `start` up to `end` in that of `s`.
pub open spec fn sliced(s: Seq<char>, start: int, end: int) -> Seq<char> {
    decode_utf8(encode_utf8(s).subrange(start, end))
}

/// The text that stands in `s` from byte `start` up to byte `end`.
pub fn slice(s: &str, start: usize, end: usize) -> (r: &str)
    requires
        sliceable(s@, start as int, end as int),
    ensures
        r@ == sliced(s@, start as int, end as int),
{
    let ghost bytes = encode_utf8(s@);
    proof {
        encode_utf8_valid_utf8(s@);
    }
    let rest = s.split_at(start).1;
    let ghost rest_bytes = bytes.subrange(start as int, bytes.len() as int);
    assert(rest.spec_bytes() == rest_bytes);
    proof {
        encode_utf8_valid_utf8(rest@);
        is_char_boundary_start_end_of_seq(rest_bytes);
        if end < bytes.len() {
            is_char_boundary_iff_not_is_continuation_byte(bytes, end as int);
            is_char_boundary_iff_not_is_continuation_byte(rest_bytes, end - start);
        }
    }
    let r = rest.split_at(end - start).0;
    proof {
        assert(r.spec_bytes() =~= bytes.subrange(start as int, end as int));
        encode_utf8_decode_utf8(r@);
    }
    r
}

/// The character of a decimal digit.
pub open spec fn digit(d: nat) -> char {
    if d == 0 {
        '0'
    } else if d == 1 {
        '1'
    } else if d == 2 {
        '2'
    } else if d == 3 {
        '3'
    } else if d == 4 {
        '4'
    } else if d == 5 {
        '5'
    } else if d == 6 {
        '6'
    } else if d == 7 {
        '7'
    } else if d == 8 {
        '8'
    } else {
        '9'
    }
}

/// `n` in decimal, without leading zeros.
pub open spec fn decimal(n: nat) -> Seq<char>
    decreases n,
{
    if n < 10 {
        seq![digit(n)]
    } else {
        decimal(n / 10).push(digit(n % 10))
    }
}

fn digit_text(d: u64) -> (s: &'static str)
    requires
        d < 10,
    ensures
        s@ == seq![digit(d as nat)],
{
    proof {
        reveal_strlit("0");
        reveal_strlit("1");
        reveal_strlit("2");
        reveal_strlit("3");
        reveal_strlit("4");
        reveal_strlit("5");
        reveal_strlit("6");
        reveal_strlit("7");
        reveal_strlit("8");
        reveal_strlit("9");
    }
    if d == 0 {
        "0"
    } else if d == 1 {
        "1"
    } else if d == 2 {
        "2"
    } else if d == 3 {
        "3"
    } else if d == 4 {
        "4"
    } else if d == 5 {
        "5"
    } else if d == 6 {
        "6"
    } else if d == 7 {
        "7"
    } else if d == 8 {
        "8"
    } else {
        "9"
    }
}

/// Appends `n` in decimal to `out`.
pub fn push_decimal(out: &mut String, n: u64)
    ensures
        final(out)@ == old(out)@ + decimal(n as nat),
    decreases n,
{
    if n >= 10 {
        push_decimal(out, n / 10);
    }
    out.append(digit_text(n % 10));
    assert(out@ =~= old(out)@ + decimal(n as nat));
}

/// Different numbers are written differently.
pub proof fn decimal_is_injective(a: nat, b: nat)
    requires
        decimal(a) == decimal(b),
    ensures
        a == b,
    decreases a,
{
    decimal_ends_in_digit(a);
    decimal_ends_in_digit(b);
    assert(decimal(a).last() == decimal(b).last());
    assert(a % 10 == b % 10);
    if a >= 10 && b >= 10 {
        assert(decimal(a / 10) =~= decimal(a).drop_last());
        assert(decimal(b / 10) =~= decimal(b).drop_last());
        decimal_is_injective(a / 10, b / 10);
    } else if a >= 10 {
        decimal_ends_in_digit(a / 10);
        assert(decimal(a).len() >= 2);
    } else if b >= 10 {
        decimal_ends_in_digit(b / 10);
        assert(decimal(b).len() >= 2);
    }
}

proof fn decimal_ends_in_digit(n: nat)
    ensures
        decimal(n).len() >= 1,
        decimal(n).last() == digit(n % 10),
    decreases n,
{
    if n >= 10 {
        decimal_ends_in_digit(n / 10);
    }
}

/// Whether `a` stands before `b` in a dictionary: behind what both start with,
/// either `a` is at its end and `b` is not, or its next character is the lesser one.
pub open spec fn stands_before(a: Seq<char>, b: Seq<char>) -> bool {
    exists|k: int| parts_at(a, b, k)
}

/// Whether `a` and `b` agree up to `k`, where `a` is the lesser one.
pub open spec fn parts_at(a: Seq<char>, b: Seq<char>, k: int) -> bool {
    &&& 0 <= k <= a.len()
    &&& k < b.len()
    &&& forall|j: int| 0 <= j < k ==> #[trigger] a[j] == b[j]
    &&& k == a.len() || (a[k] as int) < (b[k] as int)
}

/// The order of texts is that of a dictionary.
pub proof fn text_order_is_lexicographic(a: Seq<char>, b: Seq<char>)
    ensures
        text_order(a, b) == Order::Less <==> stands_before(a, b),
        text_order(a, b) == Order::Equal <==> a == b,
        text_order(a, b) == Order::Greater <==> stands_before(b, a),
{
    text_order_equal_is_same(a, b);
    text_order_is_antisymmetric(b, a);
    lemma_less_stands_before(a, b);
    lemma_less_stands_before(b, a);
}

proof fn lemma_less_stands_before(a: Seq<char>, b: Seq<char>)
    ensures
        text_order(a, b) == Order::Less <==> stands_before(a, b),
    decreases a.len(),
{
    if a.len() == 0 || b.len() == 0 {
        if b.len() > 0 {
            assert(parts_at(a, b, 0));
        }
    } else {
        let x = a.skip(1);
        let y = b.skip(1);
        lemma_less_stands_before(x, y);
        if (a[0] as int) < (b[0] as int) {
            assert(parts_at(a, b, 0));
        }
        if text_order(a, b) == Order::Less && a[0] == b[0] {
            let k = choose|k: int| parts_at(x, y, k);
            assert forall|j: int| 0 <= j < k + 1 implies #[trigger] a[j] == b[j] by {
                if j > 0 {
                    assert(x[j - 1] == y[j - 1]);
                }
            }
            assert(parts_at(a, b, k + 1));
        }
        if stands_before(a, b) {
            let k = choose|k: int| parts_at(a, b, k);
            if k > 0 {
                assert(a[0] == b[0]);
                assert forall|j: int| 0 <= j < k - 1 implies #[trigger] x[j] == y[j] by {
                    assert(a[j + 1] == b[j + 1]);
                }
                assert(parts_at(x, y, k - 1));
            }
        }
    }
}

/// Whether all of `s` satisfies `drop`.
pub open spec fn all_dropped(s: Seq<char>, drop: spec_fn(char) -> bool) -> bool {
    forall|i: int| 0 <= i < s.len() ==> drop(#[trigger] s[i])
}

/// Whether `kept` is what is left of `s` once everything at either end that
/// satisfies `drop` is taken off: nothing else is lost, and neither end of it
/// satisfies `drop`.
pub open spec fn is_left(s: Seq<char>, kept: Seq<char>, drop: spec_fn(char) -> bool) -> bool {
    exists|a: int, b: int| #[trigger] is_left_at(s, kept, drop, a, b)
}

/// Whether `kept` is the part of `s` from `a` up to `b`, as `is_left` has it.
pub open spec fn is_left_at(
    s: Seq<char>,
    kept: Seq<char>,
    drop: spec_fn(char) -> bool,
    a: int,
    b: int,
) -> bool {
    &&& 0 <= a <= b <= s.len()
    &&& kept == s.subrange(a, b)
    &&& all_dropped(s.subrange(0, a), drop)
    &&& all_dropped(s.subrange(b, s.len() as int), drop)
    &&& kept.len() > 0 ==> !drop(kept[0]) && !drop(kept.last())
}

proof fn lemma_without_suffix(s: Seq<char>, drop: spec_fn(char) -> bool) -> (b: int)
    ensures
        0 <= b <= s.len(),
        without_suffix(s, drop) == s.subrange(0, b),
        all_dropped(s.subrange(b, s.len() as int), drop),
        b > 0 ==> !drop(s[b - 1]),
    decreases s.len(),
{
    if s.len() > 0 && drop(s.last()) {
        let rest = s.drop_last();
        let b = lemma_without_suffix(rest, drop);
        assert(rest.subrange(0, b) =~= s.subrange(0, b));
        assert forall|i: int| 0 <= i < s.len() - b implies drop(
            #[trigger] s.subrange(b, s.len() as int)[i],
        ) by {
            if i < rest.len() - b {
                assert(rest.subrange(b, rest.len() as int)[i] == s[b + i]);
            }
        }
        b
    } else {
        assert(s.subrange(0, s.len() as int) =~= s);
        s.len() as int
    }
}

proof fn lemma_without_prefix(s: Seq<char>, drop: spec_fn(char) -> bool) -> (a: int)
    ensures
        0 <= a <= s.len(),
        without_prefix(s, drop) == s.subrange(a, s.len() as int),
        all_dropped(s.subrange(0, a), drop),
        a < s.len() ==> !drop(s[a]),
    decreases s.len(),
{
    if s.len() > 0 && drop(s[0]) {
        let rest = s.skip(1);
        let a = lemma_without_prefix(rest, drop);
        assert(rest.subrange(a, rest.len() as int) =~= s.subrange(a + 1, s.len() as int));
        assert forall|i: int| 0 <= i < a + 1 implies drop(#[trigger] s.subrange(0, a + 1)[i]) by {
            if i > 0 {
                assert(rest.subrange(0, a)[i - 1] == s[i]);
            }
        }
        a + 1
    } else {
        assert(s.subrange(0, s.len() as int) =~= s);
        0
    }
}

proof fn lemma_stripped(s: Seq<char>, drop: spec_fn(char) -> bool)
    ensures
        is_left(s, stripped(s, drop), drop),
{
    let b = lemma_without_suffix(s, drop);
    let part = s.subrange(0, b);
    let a = lemma_without_prefix(part, drop);
    let kept = stripped(s, drop);
    assert(part.subrange(a, b) =~= s.subrange(a, b));
    assert(part.subrange(0, a) =~= s.subrange(0, a));
    assert(is_left_at(s, kept, drop, a, b));
}

/// A trimmed text is the text without the white space at either end, and nothing
/// else is lost.
pub proof fn trimmed_loses_only_white(s: Seq<char>)
    ensures
        is_left(s, trimmed(s), |c: char| white(c)),
{
    lemma_stripped(s, |c: char| white(c));
}

/// An unquoted text is the text without the double quotes at either end, and
/// nothing else is lost.
pub proof fn unquoted_loses_only_quotes(s: Seq<char>)
    ensures
        is_left(s, unquoted(s), |c: char| c == '"'),
{
    lemma_stripped(s, |c: char| c == '"');
}

/// A text announces something exactly where one of its characters is a colon and
/// all behind that one are white space.
pub proof fn announcing_ends_in_a_colon(s: Seq<char>)
    ensures
        announces(s) <==> exists|i: int|
            0 <= i < s.len() && #[trigger] s[i] == ':' && all_dropped(
                s.skip(i + 1),
                |c: char| white(c),
            ),
{
    let drop = |c: char| white(c);
    let b = lemma_without_suffix(s, drop);
    assert(!white(':'));
    if announces(s) {
        assert(end_trimmed(s).last() == s[b - 1]);
        assert(s.skip(b - 1 + 1) =~= s.subrange(b, s.len() as int));
    }
    if exists|i: int| 0 <= i < s.len() && #[trigger] s[i] == ':' && all_dropped(s.skip(i + 1), drop) {
        let i = choose|i: int|
            0 <= i < s.len() && #[trigger] s[i] == ':' && all_dropped(s.skip(i + 1), drop);
        if i < b - 1 {
            assert(s.skip(i + 1)[b - 1 - (i + 1)] == s[b - 1]);
        } else if i >= b {
            assert(s.subrange(b, s.len() as int)[i - b] == s[i]);
        }
        assert(end_trimmed(s).last() == s[b - 1]);
    }
}

/// The number that decimal digits stand for.
pub open spec fn number_of(s: Seq<char>) -> int
    decreases s.len(),
{
    if s.len() == 0 {
        0
    } else {
        10 * number_of(s.drop_last()) + (s.last() as int - '0' as int)
    }
}

/// A number is written in decimal digits, without a leading zero unless it is zero,
/// and can be read back.
pub proof fn decimal_is_read_back(n: nat)
    ensures
        number_of(decimal(n)) == n,
        decimal(n).len() > 0,
        forall|i: int|
            0 <= i < decimal(n).len() ==> '0' as int <= (#[trigger] decimal(n)[i]) as int
                <= '9' as int,
        decimal(n)[0] == '0' ==> n == 0 && decimal(n).len() == 1,
    decreases n,
{
    reveal_with_fuel(number_of, 2);
    if n < 10 {
        assert(decimal(n).drop_last() =~= Seq::empty());
        assert(decimal(n).last() == digit(n));
    } else {
        let rest = decimal(n / 10);
        decimal_is_read_back(n / 10);
        assert(decimal(n).drop_last() =~= rest);
        assert(decimal(n).last() == digit(n % 10));
        assert forall|i: int| 0 <= i < decimal(n).len() implies '0' as int <= (
        #[trigger] decimal(n)[i]) as int <= '9' as int by {
            if i < rest.len() {
                assert(decimal(n)[i] == rest[i]);
            }
        }
        assert(decimal(n)[0] == rest[0]);
    }
}

/// A slice is the text whose bytes stand there.
pub proof fn slice_has_its_bytes(s: Seq<char>, start: int, end: int)
    requires
        sliceable(s, start, end),
    ensures
        encode_utf8(sliced(s, start, end)) == encode_utf8(s).subrange(start, end),
{
    let bytes = encode_utf8(s);
    let rest = bytes.subrange(start, bytes.len() as int);
    encode_utf8_valid_utf8(s);
    valid_utf8_split(bytes, start);
    is_char_boundary_start_end_of_seq(rest);
    if end < bytes.len() {
        is_char_boundary_iff_not_is_continuation_byte(bytes, end);
        is_char_boundary_iff_not_is_continuation_byte(rest, end - start);
    }
    valid_utf8_split(rest, end - start);
    assert(rest.subrange(0, end - start) =~= bytes.subrange(start, end));
    decode_utf8_encode_utf8(bytes.subrange(start, end));
}

} // verus!
