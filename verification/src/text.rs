//! Byte-level text primitives shared by every header grammar.
//!
//! Header text is modelled as a sequence of bytes (`Seq<u8>`). A `&str` or
//! `String` stands for its UTF-8 encoding, so a contract over `s.spec_bytes()`
//! speaks of exactly the bytes that go on the wire.

use vstd::prelude::*;
use vstd::string::StringSliceAdditionalSpecFns;
use vstd::utf8::*;

verus! {

/// ASCII white space: horizontal tab, line feed, vertical tab, form feed,
/// carriage return and space.
pub open spec fn is_whitespace(b: u8) -> bool {
    (9 <= b && b <= 13) || b == 32
}

/// Optional white space of the HTTP grammar: space or horizontal tab.
pub open spec fn is_ows(b: u8) -> bool {
    b == 32 || b == 9
}

/// An ASCII decimal digit.
pub open spec fn is_digit(b: u8) -> bool {
    '0' as u8 <= b && b <= '9' as u8
}

/// An ASCII letter.
pub open spec fn is_alpha(b: u8) -> bool {
    ('a' as u8 <= b && b <= 'z' as u8) || ('A' as u8 <= b && b <= 'Z' as u8)
}

/// A byte that may stand in a header value read as text: a printable ASCII
/// character or a horizontal tab.
pub open spec fn is_visible(b: u8) -> bool {
    (32 <= b && b < 127) || b == 9
}

/// Every byte of `s` is [`is_visible`].
pub open spec fn is_visible_ascii(s: Seq<u8>) -> bool {
    forall|i: int| 0 <= i < s.len() ==> is_visible(#[trigger] s[i])
}

/// Every byte of `s` is below 128.
pub open spec fn is_ascii(s: Seq<u8>) -> bool {
    forall|i: int| 0 <= i < s.len() ==> #[trigger] s[i] < 128
}

/// The lower-case form of one byte: ASCII capitals are shifted, every other
/// byte is kept.
pub open spec fn lower(b: u8) -> u8 {
    if 'A' as u8 <= b && b <= 'Z' as u8 {
        (b + 32) as u8
    } else {
        b
    }
}

/// `s` with every ASCII capital replaced by its lower-case letter.
pub open spec fn to_lower(s: Seq<u8>) -> Seq<u8> {
    Seq::new(s.len(), |i: int| lower(s[i]))
}

/// Equality up to the case of ASCII letters.
pub open spec fn eq_ignore_case(a: Seq<u8>, b: Seq<u8>) -> bool {
    to_lower(a) == to_lower(b)
}

/// Number of white-space bytes at the front of `s`.
pub open spec fn leading_whitespace(s: Seq<u8>) -> nat
    decreases s.len(),
{
    if s.len() > 0 && is_whitespace(s[0]) {
        1 + leading_whitespace(s.drop_first())
    } else {
        0
    }
}

/// Number of white-space bytes at the back of `s`.
pub open spec fn trailing_whitespace(s: Seq<u8>) -> nat
    decreases s.len(),
{
    if s.len() > 0 && is_whitespace(s.last()) {
        1 + trailing_whitespace(s.drop_last())
    } else {
        0
    }
}

/// `s` without its leading white space.
pub open spec fn trim_start(s: Seq<u8>) -> Seq<u8> {
    s.skip(leading_whitespace(s) as int)
}

/// `s` without its trailing white space.
pub open spec fn trim_end(s: Seq<u8>) -> Seq<u8> {
    s.take(s.len() - trailing_whitespace(s))
}

/// `s` without leading and trailing white space.
pub open spec fn trim(s: Seq<u8>) -> Seq<u8> {
    trim_end(trim_start(s))
}

/// Index of the first occurrence of `b` in `s`, or `s.len()` if there is none.
pub open spec fn index_of(s: Seq<u8>, b: u8) -> nat
    decreases s.len(),
{
    if s.len() == 0 || s[0] == b {
        0
    } else {
        1 + index_of(s.drop_first(), b)
    }
}

/// The pieces of `s` between occurrences of `sep`. There is always at least
/// one piece; adjacent separators give empty pieces.
pub open spec fn split(s: Seq<u8>, sep: u8) -> Seq<Seq<u8>>
    decreases s.len(),
{
    let i = index_of(s, sep) as int;
    if i >= s.len() {
        seq![s]
    } else {
        seq![s.take(i)] + split(s.skip(i + 1), sep)
    }
}

/// `s` cut at the first occurrence of `sep`, which belongs to neither half;
/// `None` where `sep` does not occur.
pub open spec fn split_once(s: Seq<u8>, sep: u8) -> Option<(Seq<u8>, Seq<u8>)> {
    let i = index_of(s, sep) as int;
    if i >= s.len() {
        None
    } else {
        Some((s.take(i), s.skip(i + 1)))
    }
}

/// `s` without the bytes equal to `b` at its front and back.
pub open spec fn trim_matches(s: Seq<u8>, b: u8) -> Seq<u8> {
    let front = s.skip(leading_run(s, b) as int);
    front.take(front.len() - trailing_run(front, b))
}

/// Number of bytes equal to `b` at the front of `s`.
pub open spec fn leading_run(s: Seq<u8>, b: u8) -> nat
    decreases s.len(),
{
    if s.len() > 0 && s[0] == b {
        1 + leading_run(s.drop_first(), b)
    } else {
        0
    }
}

/// Number of bytes equal to `b` at the back of `s`.
pub open spec fn trailing_run(s: Seq<u8>, b: u8) -> nat
    decreases s.len(),
{
    if s.len() > 0 && s.last() == b {
        1 + trailing_run(s.drop_last(), b)
    } else {
        0
    }
}

/// The leading white space is white space, and what follows it is not.
pub proof fn lemma_leading_whitespace_bound(s: Seq<u8>)
    ensures
        leading_whitespace(s) <= s.len(),
        forall|i: int| 0 <= i < leading_whitespace(s) ==> is_whitespace(#[trigger] s[i]),
        leading_whitespace(s) < s.len() ==> !is_whitespace(s[leading_whitespace(s) as int]),
    decreases s.len(),
{
    if s.len() > 0 && is_whitespace(s[0]) {
        let t = s.drop_first();
        lemma_leading_whitespace_bound(t);
        assert forall|i: int| 0 <= i < leading_whitespace(s) implies is_whitespace(
            #[trigger] s[i],
        ) by {
            if i > 0 {
                assert(s[i] == t[i - 1]);
            }
        }
        if leading_whitespace(s) < s.len() {
            assert(s[leading_whitespace(s) as int] == t[leading_whitespace(t) as int]);
        }
    }
}

/// The trailing white space is white space, and what stands before it is
/// not.
pub proof fn lemma_trailing_whitespace_bound(s: Seq<u8>)
    ensures
        trailing_whitespace(s) <= s.len(),
        forall|i: int|
            s.len() - trailing_whitespace(s) <= i < s.len() ==> is_whitespace(#[trigger] s[i]),
        trailing_whitespace(s) < s.len() ==> !is_whitespace(
            s[s.len() - trailing_whitespace(s) - 1],
        ),
    decreases s.len(),
{
    if s.len() > 0 && is_whitespace(s.last()) {
        let t = s.drop_last();
        lemma_trailing_whitespace_bound(t);
        assert forall|i: int|
            s.len() - trailing_whitespace(s) <= i < s.len() implies is_whitespace(
            #[trigger] s[i],
        ) by {
            if i < s.len() - 1 {
                assert(s[i] == t[i]);
            }
        }
        if trailing_whitespace(s) < s.len() {
            assert(s[s.len() - trailing_whitespace(s) - 1] == t[t.len() - trailing_whitespace(t)
                - 1]);
        }
    }
}

/// The bytes counted by `trailing_run` are equal to `b`.
pub proof fn lemma_trailing_run_all(s: Seq<u8>, b: u8)
    ensures
        trailing_run(s, b) <= s.len(),
        forall|i: int| s.len() - trailing_run(s, b) <= i < s.len() ==> #[trigger] s[i] == b,
    decreases s.len(),
{
    if s.len() > 0 && s.last() == b {
        let t = s.drop_last();
        lemma_trailing_run_all(t, b);
        assert forall|i: int| s.len() - trailing_run(s, b) <= i < s.len() implies #[trigger] s[i]
            == b by {
            if i < s.len() - 1 {
                assert(s[i] == t[i]);
            }
        }
    }
}

/// `index_of` is the least index that holds `b`.
pub proof fn lemma_index_of(s: Seq<u8>, b: u8)
    ensures
        index_of(s, b) <= s.len(),
        forall|i: int| 0 <= i < index_of(s, b) ==> #[trigger] s[i] != b,
        index_of(s, b) < s.len() ==> s[index_of(s, b) as int] == b,
    decreases s.len(),
{
    if s.len() == 0 || s[0] == b {
    } else {
        let t = s.drop_first();
        lemma_index_of(t, b);
        assert forall|i: int| 0 <= i < index_of(s, b) implies #[trigger] s[i] != b by {
            if i > 0 {
                assert(s[i] == t[i - 1]);
            }
        }
        if index_of(s, b) < s.len() {
            assert(s[index_of(s, b) as int] == t[index_of(t, b) as int]);
        }
    }
}

/// An index below which `b` does not occur, and which holds `b` or is the
/// length of `s`, is `index_of(s, b)`.
pub proof fn lemma_index_of_unique(s: Seq<u8>, b: u8, k: int)
    requires
        0 <= k <= s.len(),
        forall|i: int| 0 <= i < k ==> #[trigger] s[i] != b,
        k < s.len() ==> s[k] == b,
    ensures
        index_of(s, b) == k,
{
    lemma_index_of(s, b);
    let j = index_of(s, b) as int;
    if j < k {
        assert(s[j] != b);
    }
    if k < j {
        assert(s[k] != b);
    }
}

/// Where `b` does not occur, `index_of` is the length.
pub proof fn lemma_index_of_absent(s: Seq<u8>, b: u8)
    requires
        !s.contains(b),
    ensures
        index_of(s, b) == s.len(),
{
    lemma_index_of(s, b);
    if index_of(s, b) < s.len() {
        assert(s.contains(s[index_of(s, b) as int]));
    }
}

/// The first occurrence in a concatenation is the first occurrence in the
/// front part, or else the one in the back part.
pub proof fn lemma_index_of_concat(x: Seq<u8>, y: Seq<u8>, b: u8)
    ensures
        index_of(x + y, b) == if index_of(x, b) < x.len() {
            index_of(x, b)
        } else {
            x.len() + index_of(y, b)
        },
{
    lemma_index_of(x, b);
    lemma_index_of(y, b);
    let s = x + y;
    let k: int = if index_of(x, b) < x.len() {
        index_of(x, b) as int
    } else {
        (x.len() + index_of(y, b)) as int
    };
    assert forall|i: int| 0 <= i < k implies #[trigger] s[i] != b by {
        if i < x.len() {
            assert(s[i] == x[i]);
        } else {
            assert(s[i] == y[i - x.len()]);
        }
    }
    if k < s.len() {
        if k < x.len() {
            assert(s[k] == x[k]);
        } else {
            assert(s[k] == y[k - x.len()]);
        }
    }
    lemma_index_of_unique(s, b, k);
}

/// A piece without separator that is added after a separator is the last
/// piece.
pub proof fn lemma_split_append(x: Seq<u8>, y: Seq<u8>, sep: u8)
    requires
        !y.contains(sep),
    ensures
        split(x + seq![sep] + y, sep) == split(x, sep).push(y),
    decreases x.len(),
{
    let tail = seq![sep] + y;
    let s = x + tail;
    assert(s =~= x + seq![sep] + y);
    lemma_index_of_concat(x, tail, sep);
    lemma_index_of(x, sep);
    assert(index_of(tail, sep) == 0);
    let k = index_of(x, sep) as int;
    if k < x.len() {
        let rest = x.skip(k + 1);
        lemma_split_append(rest, y, sep);
        assert(s.take(k) =~= x.take(k));
        assert(s.skip(k + 1) =~= rest + seq![sep] + y);
        assert(split(s, sep) =~= seq![x.take(k)] + split(rest, sep).push(y));
        assert(split(x, sep) =~= seq![x.take(k)] + split(rest, sep));
        assert(split(s, sep) =~= split(x, sep).push(y));
    } else {
        lemma_index_of_absent(y, sep);
        assert(s.take(x.len() as int) =~= x);
        assert(s.skip(x.len() as int + 1) =~= y);
        assert(split(y, sep) =~= seq![y]);
        assert(split(x, sep) =~= seq![x]);
        assert(split(s, sep) =~= seq![x] + seq![y]);
        assert(split(s, sep) =~= split(x, sep).push(y));
    }
}

/// Text without white space at either end is its own trimmed form, also
/// after a space is put before it.
pub proof fn lemma_trim_clean(t: Seq<u8>)
    requires
        t.len() > 0,
        !is_whitespace(t[0]),
        !is_whitespace(t.last()),
    ensures
        trim(t) == t,
        trim(seq![' ' as u8] + t) == t,
{
    assert(trim_start(t) =~= t);
    assert(trim(t) =~= t);
    let u = seq![' ' as u8] + t;
    assert(u.drop_first() =~= t);
    assert(leading_whitespace(u) == 1);
    assert(trim_start(u) =~= t);
}

/// Text made of white space only is empty when trimmed.
pub proof fn lemma_trim_blank(s: Seq<u8>)
    requires
        forall|i: int| 0 <= i < s.len() ==> is_whitespace(#[trigger] s[i]),
    ensures
        trim(s).len() == 0,
        leading_whitespace(s) == s.len(),
    decreases s.len(),
{
    if s.len() > 0 {
        let t = s.drop_first();
        assert forall|i: int| 0 <= i < t.len() implies is_whitespace(#[trigger] t[i]) by {
            assert(t[i] == s[i + 1]);
        }
        lemma_trim_blank(t);
    }
    assert(trim_start(s).len() == 0);
}

/// Lowering twice is lowering once, and equality without regard to case
/// does not see the lowering.
pub proof fn lemma_to_lower_idempotent(s: Seq<u8>)
    ensures
        to_lower(to_lower(s)) == to_lower(s),
        forall|t: Seq<u8>| eq_ignore_case(to_lower(s), t) == #[trigger] eq_ignore_case(s, t),
{
    assert(to_lower(to_lower(s)) =~= to_lower(s));
}

/// The pieces of ASCII text are ASCII.
pub proof fn lemma_split_ascii(s: Seq<u8>, sep: u8)
    requires
        is_ascii(s),
    ensures
        forall|i: int| 0 <= i < split(s, sep).len() ==> is_ascii(#[trigger] split(s, sep)[i]),
    decreases s.len(),
{
    let k = index_of(s, sep) as int;
    lemma_index_of(s, sep);
    if k >= s.len() {
    } else {
        let rest = s.skip(k + 1);
        assert(is_ascii(rest));
        assert(is_ascii(s.take(k)));
        lemma_split_ascii(rest, sep);
        assert forall|i: int| 0 <= i < split(s, sep).len() implies is_ascii(
            #[trigger] split(s, sep)[i],
        ) by {
            if i > 0 {
                assert(split(s, sep)[i] == split(rest, sep)[i - 1]);
            }
        }
    }
}

/// ASCII text is well-formed UTF-8.
pub proof fn lemma_ascii_is_utf8(s: Seq<u8>)
    requires
        is_ascii(s),
    ensures
        valid_utf8(s),
{
    assert(s.subrange(0, 0) =~= Seq::<u8>::empty());
    assert(partial_valid_utf8(s, 0));
    assert forall|i: int| 0 <= 0 <= i < s.len() <= s.len() implies is_leading_byte_width_1(
        #[trigger] s[i],
    ) by {}
    partial_valid_utf8_extend_ascii_block(s, 0, s.len() as int);
    assert(s.subrange(0, s.len() as int) =~= s);
}

/// Well-formed UTF-8 that is cut at an ASCII byte, which is left out,
/// gives two parts that are well-formed UTF-8: the parts of a string that
/// is split at an ASCII character are strings.
pub proof fn lemma_utf8_cut(s: Seq<u8>, i: int)
    requires
        valid_utf8(s),
        0 <= i < s.len(),
        s[i] < 128,
    ensures
        valid_utf8(s.take(i)),
        valid_utf8(s.skip(i + 1)),
{
    is_char_boundary_iff_not_is_continuation_byte(s, i);
    valid_utf8_split(s, i);
    let front = s.subrange(0, i);
    let back = s.subrange(i, s.len() as int);
    assert(front =~= s.take(i));
    assert(back[0] == s[i]);
    assert(is_leading_byte_width_1(back[0]));
    assert(length_of_first_scalar(back) == 1);
    assert(pop_first_scalar(back) =~= s.skip(i + 1));
}

/// The halves of well-formed UTF-8 that is split at an ASCII separator
/// are well-formed UTF-8.
pub proof fn law_split_keeps_utf8(s: Seq<u8>, sep: u8)
    requires
        valid_utf8(s),
        sep < 128,
    ensures
        split_once(s, sep) matches Some((a, b)) ==> valid_utf8(a) && valid_utf8(b),
{
    lemma_index_of(s, sep);
    let i = index_of(s, sep) as int;
    if i < s.len() {
        lemma_utf8_cut(s, i);
    }
}

/// Visible text is ASCII.
pub proof fn lemma_visible_is_ascii(s: Seq<u8>)
    requires
        is_visible_ascii(s),
    ensures
        is_ascii(s),
{
    assert forall|i: int| 0 <= i < s.len() implies #[trigger] s[i] < 128 by {
        assert(is_visible(s[i]));
    }
}

/// Tells whether `b` is ASCII white space.
pub fn byte_is_whitespace(b: u8) -> (r: bool)
    ensures
        r == is_whitespace(b),
{
    (9 <= b && b <= 13) || b == 32
}

/// Tells whether `b` is an ASCII decimal digit.
pub fn byte_is_digit(b: u8) -> (r: bool)
    ensures
        r == is_digit(b),
{
    '0' as u8 <= b && b <= '9' as u8
}

/// Tells whether every byte of `s` is printable ASCII or a tab.
pub fn check_visible_ascii(s: &[u8]) -> (r: bool)
    ensures
        r == is_visible_ascii(s@),
{
    let mut i: usize = 0;
    while i < s.len()
        invariant
            i <= s.len(),
            forall|j: int| 0 <= j < i ==> is_visible(#[trigger] s@[j]),
        decreases s.len() - i,
    {
        let b: u8 = s[i];
        if !((32 <= b && b < 127) || b == 9) {
            return false;
        }
        i += 1;
    }
    true
}

/// Byte-wise equality of two slices.
pub fn bytes_eq(a: &[u8], b: &[u8]) -> (r: bool)
    ensures
        r == (a@ == b@),
{
    if a.len() != b.len() {
        return false;
    }
    let mut i: usize = 0;
    while i < a.len()
        invariant
            i <= a.len(),
            a.len() == b.len(),
            forall|j: int| 0 <= j < i ==> a@[j] == b@[j],
        decreases a.len() - i,
    {
        if a[i] != b[i] {
            return false;
        }
        i += 1;
    }
    assert(a@ =~= b@);
    true
}

/// The lower-case form of one byte.
pub fn lower_byte(b: u8) -> (r: u8)
    ensures
        r == lower(b),
{
    if 'A' as u8 <= b && b <= 'Z' as u8 {
        b + 32
    } else {
        b
    }
}

/// Equality of two slices up to the case of ASCII letters.
pub fn bytes_eq_ignore_case(a: &[u8], b: &[u8]) -> (r: bool)
    ensures
        r == eq_ignore_case(a@, b@),
{
    if a.len() != b.len() {
        assert(to_lower(a@).len() != to_lower(b@).len());
        return false;
    }
    let mut i: usize = 0;
    while i < a.len()
        invariant
            i <= a.len(),
            a.len() == b.len(),
            forall|j: int| 0 <= j < i ==> lower(a@[j]) == lower(b@[j]),
        decreases a.len() - i,
    {
        if lower_byte(a[i]) != lower_byte(b[i]) {
            assert(to_lower(a@)[i as int] != to_lower(b@)[i as int]);
            return false;
        }
        i += 1;
    }
    assert(to_lower(a@) =~= to_lower(b@));
    true
}

/// A copy of `s` with ASCII capitals in lower case.
pub fn lower_bytes(s: &[u8]) -> (r: Vec<u8>)
    ensures
        r@ == to_lower(s@),
{
    let mut out: Vec<u8> = Vec::new();
    let mut i: usize = 0;
    while i < s.len()
        invariant
            i <= s.len(),
            out@.len() == i,
            forall|j: int| 0 <= j < i ==> out@[j] == lower(s@[j]),
        decreases s.len() - i,
    {
        out.push(lower_byte(s[i]));
        i += 1;
    }
    assert(out@ =~= to_lower(s@));
    out
}

/// Appends the bytes of `s` to `out`.
pub fn push_all(out: &mut Vec<u8>, s: &[u8])
    ensures
        final(out)@ == old(out)@ + s@,
{
    let mut i: usize = 0;
    while i < s.len()
        invariant
            i <= s.len(),
            out@ == old(out)@ + s@.take(i as int),
        decreases s.len() - i,
    {
        out.push(s[i]);
        i += 1;
        assert(s@.take(i as int) =~= s@.take(i - 1).push(s@[i - 1]));
        assert(out@ =~= old(out)@ + s@.take(i as int));
    }
    assert(s@.take(s.len() as int) =~= s@);
}

/// The sub-slice of `s` without leading and trailing white space.
pub fn trim_bytes(s: &[u8]) -> (r: &[u8])
    ensures
        r@ == trim(s@),
{
    let n = s.len();
    let mut start: usize = 0;
    assert(s@.skip(0) =~= s@);
    while start < n && byte_is_whitespace(s[start])
        invariant
            start <= n,
            n == s@.len(),
            leading_whitespace(s@) == start + leading_whitespace(s@.skip(start as int)),
        decreases n - start,
    {
        assert(s@.skip(start as int).drop_first() =~= s@.skip(start + 1));
        start += 1;
    }
    assert(leading_whitespace(s@) == start) by {
        if start < n {
            assert(s@.skip(start as int)[0] == s@[start as int]);
        }
    }
    let ghost front = s@.skip(start as int);
    let mut end: usize = n;
    assert(front.take(n - start) =~= front);
    while end > start && byte_is_whitespace(s[end - 1])
        invariant
            start <= end <= n,
            n == s@.len(),
            front == s@.skip(start as int),
            trailing_whitespace(front) == (n - end) + trailing_whitespace(
                front.take(end - start),
            ),
        decreases end,
    {
        assert(front.take(end - start).last() == s@[end - 1]);
        assert(front.take(end - start).drop_last() =~= front.take(end - 1 - start));
        end -= 1;
    }
    proof {
        assert(front.take(n - start) =~= front);
        if end > start {
            assert(front.take(end - start).last() == s@[end - 1]);
        }
        assert(trailing_whitespace(front) == n - end);
        assert(trim(s@) =~= s@.subrange(start as int, end as int));
    }
    vstd::slice::slice_subrange(s, start, end)
}

/// Index of the first `b` in `s`, or `s.len()`.
pub fn find_byte(s: &[u8], b: u8) -> (r: usize)
    ensures
        r == index_of(s@, b),
        r <= s@.len(),
{
    let mut i: usize = 0;
    while i < s.len() && s[i] != b
        invariant
            i <= s.len(),
            forall|j: int| 0 <= j < i ==> #[trigger] s@[j] != b,
        decreases s.len() - i,
    {
        i += 1;
    }
    proof {
        lemma_index_of_unique(s@, b, i as int);
    }
    i
}

/// Cuts `s` at the first `sep`.
pub fn split_in_two(s: &[u8], sep: u8) -> (r: Option<(&[u8], &[u8])>)
    ensures
        match r {
            Some((a, b)) => split_once(s@, sep) == Some((a@, b@)),
            None => split_once(s@, sep) is None,
        },
{
    let i = find_byte(s, sep);
    if i >= s.len() {
        None
    } else {
        let a = vstd::slice::slice_subrange(s, 0, i);
        let b = vstd::slice::slice_subrange(s, i + 1, s.len());
        Some((a, b))
    }
}

/// The pieces of `s` between occurrences of `sep`, in order.
pub fn split_bytes(s: &[u8], sep: u8) -> (r: Vec<&[u8]>)
    ensures
        r@.len() == split(s@, sep).len(),
        forall|i: int| 0 <= i < r@.len() ==> (#[trigger] r@[i])@ == split(s@, sep)[i],
{
    let mut out: Vec<&[u8]> = Vec::new();
    let mut pos: usize = 0;
    let n = s.len();
    assert(s@.skip(0) =~= s@);
    loop
        invariant_except_break
            split(s@, sep).len() == out@.len() + split(s@.skip(pos as int), sep).len(),
            forall|i: int| 0 <= i < out@.len() ==> (#[trigger] out@[i])@ == split(s@, sep)[i],
            forall|i: int|
                0 <= i < split(s@.skip(pos as int), sep).len() ==> split(s@, sep)[out@.len() + i]
                    == #[trigger] split(s@.skip(pos as int), sep)[i],
        invariant
            pos <= n,
            n == s@.len(),
        ensures
            out@.len() == split(s@, sep).len(),
            forall|i: int| 0 <= i < out@.len() ==> (#[trigger] out@[i])@ == split(s@, sep)[i],
        decreases n - pos,
    {
        let rest = vstd::slice::slice_subrange(s, pos, n);
        assert(rest@ =~= s@.skip(pos as int));
        let k = find_byte(rest, sep);
        let ghost tail = split(rest@, sep);
        if k >= rest.len() {
            assert(tail =~= seq![rest@]);
            assert(split(s@, sep)[out@.len() as int] == tail[0]);
            out.push(rest);
            break ;
        }
        let piece = vstd::slice::slice_subrange(rest, 0, k);
        assert(piece@ =~= rest@.take(k as int));
        let ghost next = split(rest@.skip(k + 1), sep);
        assert(tail =~= seq![rest@.take(k as int)] + next);
        assert(rest@.skip(k + 1) =~= s@.skip(pos + k + 1));
        assert forall|i: int| 0 <= i < next.len() implies split(s@, sep)[out@.len() + 1 + i]
            == #[trigger] next[i] by {
            assert(tail[i + 1] == next[i]);
        }
        assert(split(s@, sep)[out@.len() as int] == tail[0]);
        out.push(piece);
        pos = pos + k + 1;
    }
    out
}

/// Tells whether `b` occurs in `s`.
pub fn contains_byte(s: &[u8], b: u8) -> (r: bool)
    ensures
        r == s@.contains(b),
{
    let i = find_byte(s, b);
    proof {
        lemma_index_of(s@, b);
        if i < s.len() {
            assert(s@[i as int] == b);
        } else {
            assert forall|j: int| 0 <= j < s@.len() implies s@[j] != b by {}
        }
    }
    i < s.len()
}

/// The sub-slice of `s` without the bytes equal to `b` at its front and back.
pub fn trim_matches_bytes(s: &[u8], b: u8) -> (r: &[u8])
    ensures
        r@ == trim_matches(s@, b),
{
    let n = s.len();
    let mut start: usize = 0;
    assert(s@.skip(0) =~= s@);
    while start < n && s[start] == b
        invariant
            start <= n,
            n == s@.len(),
            leading_run(s@, b) == start + leading_run(s@.skip(start as int), b),
        decreases n - start,
    {
        assert(s@.skip(start as int).drop_first() =~= s@.skip(start + 1));
        start += 1;
    }
    assert(leading_run(s@, b) == start) by {
        if start < n {
            assert(s@.skip(start as int)[0] == s@[start as int]);
        }
    }
    let ghost front = s@.skip(start as int);
    let mut end: usize = n;
    assert(front.take(n - start) =~= front);
    while end > start && s[end - 1] == b
        invariant
            start <= end <= n,
            n == s@.len(),
            front == s@.skip(start as int),
            trailing_run(front, b) == (n - end) + trailing_run(front.take(end - start), b),
        decreases end,
    {
        assert(front.take(end - start).last() == s@[end - 1]);
        assert(front.take(end - start).drop_last() =~= front.take(end - 1 - start));
        end -= 1;
    }
    proof {
        assert(front.take(n - start) =~= front);
        if end > start {
            assert(front.take(end - start).last() == s@[end - 1]);
        }
        assert(trailing_run(front, b) == n - end);
        assert(trim_matches(s@, b) =~= s@.subrange(start as int, end as int));
    }
    vstd::slice::slice_subrange(s, start, end)
}

/// `String::from_utf8`: the bytes become a string exactly when they are
/// well-formed UTF-8, and that string then encodes to the same bytes.
#[verifier::external_body]
fn string_from_utf8(bytes: Vec<u8>) -> (r: Option<String>)
    ensures
        r is Some <==> valid_utf8(bytes@),
        r matches Some(s) ==> encode_utf8(s@) == bytes@,
{
    String::from_utf8(bytes).ok()
}

/// The string whose UTF-8 encoding is `bytes`, or `None` where `bytes` is not
/// well-formed UTF-8.
pub fn bytes_to_string(bytes: Vec<u8>) -> (r: Option<String>)
    ensures
        r is Some <==> valid_utf8(bytes@),
        r matches Some(s) ==> encode_utf8(s@) == bytes@,
{
    string_from_utf8(bytes)
}

/// The string whose UTF-8 encoding is the well-formed `bytes`.
pub(crate) fn utf8_to_string(bytes: Vec<u8>) -> (s: String)
    requires
        valid_utf8(bytes@),
    ensures
        encode_utf8(s@) == bytes@,
{
    match string_from_utf8(bytes) {
        Some(s) => s,
        None => String::new(),
    }
}

/// `std::str::from_utf8`: the bytes are a string slice exactly when they
/// are well-formed UTF-8, and that slice is those bytes.
#[verifier::external_body]
fn str_from_utf8(bytes: &[u8]) -> (r: Option<&str>)
    ensures
        r is Some <==> valid_utf8(bytes@),
        r matches Some(s) ==> s.spec_bytes() == bytes@,
{
    std::str::from_utf8(bytes).ok()
}

/// The bytes as a string slice, or `None` where they are not well-formed
/// UTF-8.
pub fn bytes_as_str(bytes: &[u8]) -> (r: Option<&str>)
    ensures
        r is Some <==> valid_utf8(bytes@),
        r matches Some(s) ==> s.spec_bytes() == bytes@,
{
    str_from_utf8(bytes)
}

/// `unicase::eq_ascii`: whether two strings are equal without regard to the
/// case of ASCII letters.
#[verifier::external_body]
fn unicase_eq_ascii(left: &str, right: &str) -> (r: bool)
    ensures
        r == eq_ignore_case(left.spec_bytes(), right.spec_bytes()),
{
    unicase::eq_ascii(left, right)
}

/// Equality of two texts without regard to the case of ASCII letters.
pub fn eq_ascii(left: &[u8], right: &[u8]) -> (r: bool)
    ensures
        r == eq_ignore_case(left@, right@),
{
    match (str_from_utf8(left), str_from_utf8(right)) {
        (Some(l), Some(r)) => unicase_eq_ascii(l, r),
        _ => bytes_eq_ignore_case(left, right),
    }
}

/// A copy of `s` as a string, where `s` is ASCII.
pub(crate) fn ascii_to_string(s: &[u8]) -> (r: String)
    requires
        is_ascii(s@),
    ensures
        encode_utf8(r@) == s@,
{
    let copy = vstd::slice::slice_to_vec(s);
    proof {
        lemma_ascii_is_utf8(copy@);
    }
    utf8_to_string(copy)
}

} // verus!
