//! The textual form of points, sizes and rectangles.
//!
//! A point is written `{x, y}`, a size `{width, height}` and a rectangle
//! `{{x, y}, {width, height}}`: one comma and one space between the components
//! at each level, and nothing else around them. Each component is a numeric
//! field in the notation of [`crate::float_text`].
//!
//! Parsing takes such a text apart into the texts of its fields and refuses
//! everything else; formatting puts field texts together. Turning a field's
//! text into a number, and a number into its text, is left to the host's own
//! conversion.

use vstd::prelude::*;
use vstd::slice::slice_subrange;
use vstd::slice::slice_to_vec;
use crate::cg_geometry::CGPoint;
use crate::cg_geometry::CGRect;
use crate::cg_geometry::CGSize;
use crate::float_text::is_float_byte;
use crate::float_text::is_float_literal;
use crate::float_text::is_float_text;
use crate::float_text::lemma_float_text_bytes;

verus! {

pub const SPACE: u8 = 0x20;

pub const COMMA: u8 = 0x2c;

pub const OPEN_BRACE: u8 = 0x7b;

pub const CLOSE_BRACE: u8 = 0x7d;

/// `, `: what stands between two components.
pub open spec fn separator() -> Seq<u8> {
    seq![COMMA, SPACE]
}

/// `a, b`
pub open spec fn tuple_text(a: Seq<u8>, b: Seq<u8>) -> Seq<u8> {
    a + separator() + b
}

/// `{a, b}`
pub open spec fn braced_text(a: Seq<u8>, b: Seq<u8>) -> Seq<u8> {
    seq![OPEN_BRACE] + tuple_text(a, b) + seq![CLOSE_BRACE]
}

/// `{{x, y}, {w, h}}`
pub open spec fn rect_text(x: Seq<u8>, y: Seq<u8>, w: Seq<u8>, h: Seq<u8>) -> Seq<u8> {
    braced_text(braced_text(x, y), braced_text(w, h))
}

/// `s` is two numeric fields with a separator between them.
pub open spec fn is_tuple_text(s: Seq<u8>) -> bool {
    exists|a: Seq<u8>, b: Seq<u8>|
        is_float_text(a) && is_float_text(b) && s == #[trigger] tuple_text(a, b)
}

/// `s` is a well-formed point or size.
pub open spec fn is_braced_text(s: Seq<u8>) -> bool {
    exists|a: Seq<u8>, b: Seq<u8>|
        is_float_text(a) && is_float_text(b) && s == #[trigger] braced_text(a, b)
}

/// `s` is a well-formed rectangle.
pub open spec fn is_rect_text(s: Seq<u8>) -> bool {
    exists|x: Seq<u8>, y: Seq<u8>, w: Seq<u8>, h: Seq<u8>|
        is_float_text(x) && is_float_text(y) && is_float_text(w) && is_float_text(h) && s
            == #[trigger] rect_text(x, y, w, h)
}

/// `pattern` stands in `s` at index `at`.
pub open spec fn occurs_at(s: Seq<u8>, pattern: Seq<u8>, at: int) -> bool {
    &&& 0 <= at
    &&& at + pattern.len() <= s.len()
    &&& s.subrange(at, at + pattern.len()) == pattern
}

/// `at` is the first index at which `pattern` stands in `s`.
pub open spec fn first_occurs_at(s: Seq<u8>, pattern: Seq<u8>, at: int) -> bool {
    &&& occurs_at(s, pattern, at)
    &&& forall|i: int| 0 <= i < at ==> !occurs_at(s, pattern, i)
}

/// Whether `pattern` stands in `s` at index `at`.
fn matches_at(s: &[u8], pattern: &[u8], at: usize) -> (r: bool)
    requires
        at + pattern@.len() <= s@.len(),
    ensures
        r == occurs_at(s@, pattern@, at as int),
{
    let n = s.len();
    let mut i: usize = 0;
    while i < pattern.len()
        invariant
            i <= pattern@.len(),
            at + pattern@.len() <= s@.len() == n,
            forall|j: int| 0 <= j < i ==> s@[at + j] == pattern@[j],
        decreases pattern@.len() - i,
    {
        if s[at + i] != pattern[i] {
            assert(s@.subrange(at as int, at + pattern@.len())[i as int] != pattern@[i as int]);
            return false;
        }
        i += 1;
    }
    assert(s@.subrange(at as int, at + pattern@.len()) =~= pattern@);
    true
}

/// Splits `s` at the first place where `pattern` stands, into what is before
/// it and what is after it.
pub fn split_once<'a>(s: &'a [u8], pattern: &[u8]) -> (r: Option<(&'a [u8], &'a [u8])>)
    ensures
        match r {
            Some((before, after)) => {
                &&& first_occurs_at(s@, pattern@, before@.len() as int)
                &&& s@ == before@ + pattern@ + after@
            },
            None => forall|i: int| !occurs_at(s@, pattern@, i),
        },
{
    if pattern.len() > s.len() {
        return None;
    }
    let n = s.len();
    let last = n - pattern.len();
    let mut at: usize = 0;
    loop
        invariant
            n == s@.len(),
            last == s@.len() - pattern@.len(),
            at <= last,
            forall|i: int| 0 <= i < at ==> !occurs_at(s@, pattern@, i),
        decreases last - at,
    {
        if matches_at(s, pattern, at) {
            let before = slice_subrange(s, 0, at);
            let after = slice_subrange(s, at + pattern.len(), s.len());
            assert(s@ =~= before@ + pattern@ + after@);
            return Some((before, after));
        }
        if at == last {
            return None;
        }
        at += 1;
    }
}

/// `s` without `prefix` at its start, if it starts with it.
pub fn strip_prefix<'a>(s: &'a [u8], prefix: &[u8]) -> (r: Option<&'a [u8]>)
    ensures
        match r {
            Some(rest) => s@ == prefix@ + rest@,
            None => !occurs_at(s@, prefix@, 0),
        },
{
    if prefix.len() <= s.len() && matches_at(s, prefix, 0) {
        let rest = slice_subrange(s, prefix.len(), s.len());
        assert(s@ =~= prefix@ + rest@);
        Some(rest)
    } else {
        None
    }
}

/// `s` without `suffix` at its end, if it ends with it.
pub fn strip_suffix<'a>(s: &'a [u8], suffix: &[u8]) -> (r: Option<&'a [u8]>)
    ensures
        match r {
            Some(rest) => s@ == rest@ + suffix@,
            None => !occurs_at(s@, suffix@, s@.len() - suffix@.len()),
        },
{
    if suffix.len() <= s.len() && matches_at(s, suffix, s.len() - suffix.len()) {
        let rest = slice_subrange(s, 0, s.len() - suffix.len());
        assert(s@ =~= rest@ + suffix@);
        Some(rest)
    } else {
        None
    }
}

/// A numeric field holds no brace, comma or space.
pub proof fn lemma_float_text_has_no_punctuation(s: Seq<u8>, i: int)
    requires
        is_float_text(s),
        0 <= i < s.len(),
    ensures
        s[i] != SPACE,
        s[i] != COMMA,
        s[i] != OPEN_BRACE,
        s[i] != CLOSE_BRACE,
{
    lemma_float_text_bytes(s);
    assert(is_float_byte(s[i]));
}

/// A text of two fields is taken apart in one way only.
pub proof fn lemma_tuple_text_unique(a: Seq<u8>, b: Seq<u8>, c: Seq<u8>, d: Seq<u8>)
    requires
        is_float_text(a),
        is_float_text(c),
        tuple_text(a, b) == tuple_text(c, d),
    ensures
        a == c,
        b == d,
{
    let s = tuple_text(a, b);
    if a.len() < c.len() {
        assert(s[a.len() as int] == COMMA);
        assert(s[a.len() as int] == c[a.len() as int]);
        lemma_float_text_has_no_punctuation(c, a.len() as int);
    }
    if c.len() < a.len() {
        assert(s[c.len() as int] == COMMA);
        assert(s[c.len() as int] == a[c.len() as int]);
        lemma_float_text_has_no_punctuation(a, c.len() as int);
    }
    assert(a =~= s.take(a.len() as int));
    assert(c =~= s.take(c.len() as int));
    assert(b =~= s.skip(a.len() as int + 2));
    assert(d =~= s.skip(c.len() as int + 2));
}

/// In a text of two fields the first separator is the one between them.
proof fn lemma_tuple_text_shape(a: Seq<u8>, b: Seq<u8>)
    requires
        is_float_text(a),
    ensures
        first_occurs_at(tuple_text(a, b), separator(), a.len() as int),
{
    let s = tuple_text(a, b);
    let at = a.len() as int;
    assert(s.subrange(at, at + 2) =~= separator());
    assert forall|i: int| 0 <= i < at implies !occurs_at(s, separator(), i) by {
        if occurs_at(s, separator(), i) {
            assert(s.subrange(i, i + 2)[0] == COMMA);
            assert(s[i] == a[i]);
            lemma_float_text_has_no_punctuation(a, i);
        }
    }
}

/// A text that is split at its first separator is a text of two fields only
/// if both parts are numeric fields.
proof fn lemma_tuple_text_parts(s: Seq<u8>, before: Seq<u8>, after: Seq<u8>)
    requires
        s == before + separator() + after,
        first_occurs_at(s, separator(), before.len() as int),
        is_tuple_text(s),
    ensures
        is_float_text(before),
        is_float_text(after),
{
    let (a, b) = choose|a: Seq<u8>, b: Seq<u8>|
        is_float_text(a) && is_float_text(b) && s == #[trigger] tuple_text(a, b);
    lemma_tuple_text_shape(a, b);
    let at = before.len() as int;
    assert(at == a.len());
    assert(before =~= s.take(at));
    assert(a =~= s.take(at));
    assert(after =~= s.skip(at + 2));
    assert(b =~= s.skip(at + 2));
}

/// A text without a separator is no text of two fields.
proof fn lemma_tuple_text_has_separator(s: Seq<u8>)
    requires
        forall|i: int| !occurs_at(s, separator(), i),
    ensures
        !is_tuple_text(s),
{
    if is_tuple_text(s) {
        let (a, b) = choose|a: Seq<u8>, b: Seq<u8>|
            is_float_text(a) && is_float_text(b) && s == #[trigger] tuple_text(a, b);
        lemma_tuple_text_shape(a, b);
    }
}

/// The texts of two numeric fields, as they stand in a text `a, b`.
pub fn parse_tuple(s: &[u8]) -> (r: Result<(Vec<u8>, Vec<u8>), ()>)
    ensures
        match r {
            Ok((a, b)) => is_float_text(a@) && is_float_text(b@) && s@ == tuple_text(a@, b@),
            Err(_) => !is_tuple_text(s@),
        },
{
    let pattern: [u8; 2] = [COMMA, SPACE];
    assert(pattern@ =~= separator());
    match split_once(s, vstd::array::array_as_slice(&pattern)) {
        None => {
            proof {
                lemma_tuple_text_has_separator(s@);
            }
            Err(())
        },
        Some((before, after)) => {
            if is_float_literal(before) && is_float_literal(after) {
                Ok((slice_to_vec(before), slice_to_vec(after)))
            } else {
                proof {
                    if is_tuple_text(s@) {
                        lemma_tuple_text_parts(s@, before@, after@);
                    }
                }
                Err(())
            }
        },
    }
}

/// The fields of the point or size that `s` is the text of, or `None` where
/// `s` is not well-formed.
pub open spec fn pair_fields(s: Seq<u8>) -> Option<(Seq<u8>, Seq<u8>)> {
    if is_braced_text(s) {
        Some(
            choose|f: (Seq<u8>, Seq<u8>)|
                is_float_text(f.0) && is_float_text(f.1) && s == braced_text(f.0, f.1),
        )
    } else {
        None
    }
}

/// The fields of the rectangle that `s` is the text of, origin before size,
/// or `None` where `s` is not well-formed.
pub open spec fn rect_fields(s: Seq<u8>) -> Option<((Seq<u8>, Seq<u8>), (Seq<u8>, Seq<u8>))> {
    if is_rect_text(s) {
        Some(
            choose|f: ((Seq<u8>, Seq<u8>), (Seq<u8>, Seq<u8>))|
                is_float_text(f.0.0) && is_float_text(f.0.1) && is_float_text(f.1.0)
                    && is_float_text(f.1.1) && s == rect_text(f.0.0, f.0.1, f.1.0, f.1.1),
        )
    } else {
        None
    }
}

/// A point's or size's text is taken apart in one way only.
pub proof fn lemma_braced_text_unique(a: Seq<u8>, b: Seq<u8>, c: Seq<u8>, d: Seq<u8>)
    requires
        is_float_text(a),
        is_float_text(c),
        braced_text(a, b) == braced_text(c, d),
    ensures
        a == c,
        b == d,
{
    let s = braced_text(a, b);
    assert(tuple_text(a, b) =~= s.subrange(1, s.len() - 1));
    assert(tuple_text(c, d) =~= s.subrange(1, s.len() - 1));
    lemma_tuple_text_unique(a, b, c, d);
}

/// A rectangle's text is taken apart in one way only.
pub proof fn lemma_rect_text_unique(
    x: Seq<u8>,
    y: Seq<u8>,
    w: Seq<u8>,
    h: Seq<u8>,
    x2: Seq<u8>,
    y2: Seq<u8>,
    w2: Seq<u8>,
    h2: Seq<u8>,
)
    requires
        is_float_text(x) && is_float_text(y) && is_float_text(w) && is_float_text(h),
        is_float_text(x2) && is_float_text(y2) && is_float_text(w2) && is_float_text(h2),
        rect_text(x, y, w, h) == rect_text(x2, y2, w2, h2),
    ensures
        x == x2,
        y == y2,
        w == w2,
        h == h2,
{
    let s = rect_text(x, y, w, h);
    lemma_rect_text_shape(x, y, w, h);
    lemma_rect_text_shape(x2, y2, w2, h2);
    lemma_rect_halves_unique(
        s,
        tuple_text(x, y),
        tuple_text(w, h),
        tuple_text(x2, y2),
        tuple_text(w2, h2),
    );
    lemma_tuple_text_unique(x, y, x2, y2);
    lemma_tuple_text_unique(w, h, w2, h2);
}

/// Parsing what formatting gives yields the fields that were formatted.
pub proof fn lemma_pair_fields_of_text(a: Seq<u8>, b: Seq<u8>)
    requires
        is_float_text(a),
        is_float_text(b),
    ensures
        pair_fields(braced_text(a, b)) == Some((a, b)),
{
    let s = braced_text(a, b);
    assert(is_braced_text(s));
    let f = pair_fields(s).unwrap();
    assert(is_float_text(f.0) && is_float_text(f.1) && s == braced_text(f.0, f.1)) by {
        let g = (a, b);
        assert(is_float_text(g.0) && is_float_text(g.1) && s == braced_text(g.0, g.1));
    }
    lemma_braced_text_unique(a, b, f.0, f.1);
}

/// Formatting what parsing gives yields the text that was parsed, and what
/// parsing gives are numeric fields.
pub proof fn lemma_text_of_pair_fields(s: Seq<u8>)
    requires
        pair_fields(s) is Some,
    ensures
        is_float_text(pair_fields(s).unwrap().0),
        is_float_text(pair_fields(s).unwrap().1),
        braced_text(pair_fields(s).unwrap().0, pair_fields(s).unwrap().1) == s,
{
    let (a, b) = choose|a: Seq<u8>, b: Seq<u8>|
        is_float_text(a) && is_float_text(b) && s == #[trigger] braced_text(a, b);
    let g = (a, b);
    assert(is_float_text(g.0) && is_float_text(g.1) && s == braced_text(g.0, g.1));
}

/// Parsing what formatting gives yields the fields that were formatted.
pub proof fn lemma_rect_fields_of_text(x: Seq<u8>, y: Seq<u8>, w: Seq<u8>, h: Seq<u8>)
    requires
        is_float_text(x),
        is_float_text(y),
        is_float_text(w),
        is_float_text(h),
    ensures
        rect_fields(rect_text(x, y, w, h)) == Some(((x, y), (w, h))),
{
    let s = rect_text(x, y, w, h);
    assert(is_rect_text(s));
    let f = rect_fields(s).unwrap();
    assert(is_float_text(f.0.0) && is_float_text(f.0.1) && is_float_text(f.1.0) && is_float_text(
        f.1.1,
    ) && s == rect_text(f.0.0, f.0.1, f.1.0, f.1.1)) by {
        let g = ((x, y), (w, h));
        assert(is_float_text(g.0.0) && is_float_text(g.0.1) && is_float_text(g.1.0)
            && is_float_text(g.1.1) && s == rect_text(g.0.0, g.0.1, g.1.0, g.1.1));
    }
    lemma_rect_text_unique(x, y, w, h, f.0.0, f.0.1, f.1.0, f.1.1);
}

/// Formatting what parsing gives yields the text that was parsed, and what
/// parsing gives are numeric fields.
pub proof fn lemma_text_of_rect_fields(s: Seq<u8>)
    requires
        rect_fields(s) is Some,
    ensures
        ({
            let f = rect_fields(s).unwrap();
            &&& is_float_text(f.0.0)
            &&& is_float_text(f.0.1)
            &&& is_float_text(f.1.0)
            &&& is_float_text(f.1.1)
            &&& rect_text(f.0.0, f.0.1, f.1.0, f.1.1) == s
        }),
{
    let (x, y, w, h) = choose|x: Seq<u8>, y: Seq<u8>, w: Seq<u8>, h: Seq<u8>|
        is_float_text(x) && is_float_text(y) && is_float_text(w) && is_float_text(h) && s
            == #[trigger] rect_text(x, y, w, h);
    let g = ((x, y), (w, h));
    assert(is_float_text(g.0.0) && is_float_text(g.0.1) && is_float_text(g.1.0) && is_float_text(
        g.1.1,
    ) && s == rect_text(g.0.0, g.0.1, g.1.0, g.1.1));
}

/// `}, {`: what stands between the origin and the size of a rectangle.
pub open spec fn rect_middle() -> Seq<u8> {
    seq![CLOSE_BRACE, COMMA, SPACE, OPEN_BRACE]
}

/// `{{`: how a rectangle's text starts.
pub open spec fn rect_open() -> Seq<u8> {
    seq![OPEN_BRACE, OPEN_BRACE]
}

/// `}}`: how a rectangle's text ends.
pub open spec fn rect_close() -> Seq<u8> {
    seq![CLOSE_BRACE, CLOSE_BRACE]
}

/// `s` is `{{`, `origin`, `}, {`, `size` and `}}`, and the first `}, {` after
/// the opening braces is the one after `origin`.
pub open spec fn is_rect_of_halves(s: Seq<u8>, origin: Seq<u8>, size: Seq<u8>) -> bool {
    &&& s == rect_open() + (origin + rect_middle() + size) + rect_close()
    &&& first_occurs_at(origin + rect_middle() + size, rect_middle(), origin.len() as int)
}

/// A rectangle's text is `{{`, its origin's fields, `}, {`, its size's fields
/// and `}}`, and the first `}, {` in it is the one after the origin.
proof fn lemma_rect_text_shape(x: Seq<u8>, y: Seq<u8>, w: Seq<u8>, h: Seq<u8>)
    requires
        is_float_text(x),
        is_float_text(y),
    ensures
        is_rect_of_halves(rect_text(x, y, w, h), tuple_text(x, y), tuple_text(w, h)),
{
    let origin = tuple_text(x, y);
    let inner = origin + rect_middle() + tuple_text(w, h);
    assert(rect_text(x, y, w, h) =~= rect_open() + inner + rect_close());
    let at = origin.len() as int;
    assert(inner.subrange(at, at + 4) =~= rect_middle());
    assert forall|i: int| 0 <= i < at implies !occurs_at(inner, rect_middle(), i) by {
        if occurs_at(inner, rect_middle(), i) {
            assert(inner.subrange(i, i + 4)[0] == CLOSE_BRACE);
            assert(inner[i] == origin[i]);
            if i < x.len() {
                assert(origin[i] == x[i]);
                lemma_float_text_has_no_punctuation(x, i);
            } else if i >= x.len() + 2 {
                assert(origin[i] == y[i - x.len() - 2]);
                lemma_float_text_has_no_punctuation(y, i - x.len() - 2);
            } else {
                assert(origin[i] == separator()[i - x.len()]);
            }
        }
    }
}

/// The two halves of a well-formed rectangle's text: each is two numeric
/// fields.
proof fn lemma_rect_text_halves(s: Seq<u8>) -> (halves: (Seq<u8>, Seq<u8>))
    requires
        is_rect_text(s),
    ensures
        is_rect_of_halves(s, halves.0, halves.1),
        is_tuple_text(halves.0),
        is_tuple_text(halves.1),
{
    let (x, y, w, h) = choose|x: Seq<u8>, y: Seq<u8>, w: Seq<u8>, h: Seq<u8>|
        is_float_text(x) && is_float_text(y) && is_float_text(w) && is_float_text(h) && s
            == #[trigger] rect_text(x, y, w, h);
    lemma_rect_text_shape(x, y, w, h);
    (tuple_text(x, y), tuple_text(w, h))
}

/// Two halves that are each two numeric fields make a rectangle's text.
proof fn lemma_rect_of_tuple_halves(s: Seq<u8>, x: Seq<u8>, y: Seq<u8>, w: Seq<u8>, h: Seq<u8>)
    requires
        is_rect_of_halves(s, tuple_text(x, y), tuple_text(w, h)),
        is_float_text(x),
        is_float_text(y),
        is_float_text(w),
        is_float_text(h),
    ensures
        rect_fields(s) == Some(((x, y), (w, h))),
{
    assert(s =~= rect_text(x, y, w, h));
    lemma_rect_fields_of_text(x, y, w, h);
}

/// A well-formed rectangle's text has two halves, and they are each two
/// numeric fields.
proof fn lemma_rect_text_needs_tuple_halves(s: Seq<u8>, origin: Seq<u8>, size: Seq<u8>)
    requires
        is_rect_of_halves(s, origin, size),
        !is_tuple_text(origin) || !is_tuple_text(size),
    ensures
        rect_fields(s) is None,
{
    if is_rect_text(s) {
        let halves = lemma_rect_text_halves(s);
        lemma_rect_halves_unique(s, origin, size, halves.0, halves.1);
    }
}

/// A well-formed rectangle's text has two halves.
proof fn lemma_rect_text_needs_halves(s: Seq<u8>)
    requires
        forall|a: Seq<u8>, b: Seq<u8>| !is_rect_of_halves(s, a, b),
    ensures
        rect_fields(s) is None,
{
    if is_rect_text(s) {
        let halves = lemma_rect_text_halves(s);
    }
}

/// A text is made of two halves in one way at most.
proof fn lemma_rect_halves_unique(s: Seq<u8>, a: Seq<u8>, b: Seq<u8>, c: Seq<u8>, d: Seq<u8>)
    requires
        is_rect_of_halves(s, a, b),
        is_rect_of_halves(s, c, d),
    ensures
        a == c,
        b == d,
{
    let inner = a + rect_middle() + b;
    let inner2 = c + rect_middle() + d;
    assert(inner =~= s.subrange(2, s.len() - 2));
    assert(inner2 =~= s.subrange(2, s.len() - 2));
    assert(a.len() == c.len());
    assert(a =~= inner.take(a.len() as int));
    assert(c =~= inner.take(a.len() as int));
    assert(b =~= inner.skip(a.len() as int + 4));
    assert(d =~= inner.skip(a.len() as int + 4));
}

/// The two halves of a rectangle's text: what stands between `{{` and the
/// first `}, {`, and between that and `}}`.
fn rect_halves<'a>(s: &'a [u8]) -> (r: Option<(&'a [u8], &'a [u8])>)
    ensures
        match r {
            Some((origin, size)) => is_rect_of_halves(s@, origin@, size@),
            None => forall|a: Seq<u8>, b: Seq<u8>| !is_rect_of_halves(s@, a, b),
        },
{
    let open: [u8; 2] = [OPEN_BRACE, OPEN_BRACE];
    let close: [u8; 2] = [CLOSE_BRACE, CLOSE_BRACE];
    let middle: [u8; 4] = [CLOSE_BRACE, COMMA, SPACE, OPEN_BRACE];
    assert(open@ =~= rect_open());
    assert(close@ =~= rect_close());
    assert(middle@ =~= rect_middle());
    let rest = match strip_prefix(s, vstd::array::array_as_slice(&open)) {
        Some(rest) => rest,
        None => {
            assert forall|a: Seq<u8>, b: Seq<u8>| !is_rect_of_halves(s@, a, b) by {
                if is_rect_of_halves(s@, a, b) {
                    assert(s@.subrange(0, 2) =~= rect_open());
                }
            }
            return None;
        },
    };
    assert(rest@ =~= s@.skip(2));
    let inner = match strip_suffix(rest, vstd::array::array_as_slice(&close)) {
        Some(inner) => inner,
        None => {
            assert forall|a: Seq<u8>, b: Seq<u8>| !is_rect_of_halves(s@, a, b) by {
                if is_rect_of_halves(s@, a, b) {
                    assert(rest@.subrange(rest@.len() - 2, rest@.len() as int) =~= rect_close());
                }
            }
            return None;
        },
    };
    assert(inner@ =~= s@.subrange(2, s@.len() - 2));
    match split_once(inner, vstd::array::array_as_slice(&middle)) {
        Some((origin, size)) => {
            assert(s@ =~= rect_open() + (origin@ + rect_middle() + size@) + rect_close());
            Some((origin, size))
        },
        None => {
            assert forall|a: Seq<u8>, b: Seq<u8>| !is_rect_of_halves(s@, a, b) by {
                if is_rect_of_halves(s@, a, b) {
                    assert(a + rect_middle() + b =~= s@.subrange(2, s@.len() - 2));
                    assert(occurs_at(inner@, rect_middle(), a.len() as int));
                }
            }
            None
        },
    }
}

/// The texts of the two fields of a point or size.
fn parse_braced(s: &[u8]) -> (r: Result<(Vec<u8>, Vec<u8>), ()>)
    ensures
        match r {
            Ok((a, b)) => pair_fields(s@) == Some((a@, b@)),
            Err(_) => pair_fields(s@) is None,
        },
{
    let open: [u8; 1] = [OPEN_BRACE];
    let close: [u8; 1] = [CLOSE_BRACE];
    assert(open@ =~= seq![OPEN_BRACE]);
    assert(close@ =~= seq![CLOSE_BRACE]);
    proof {
        // What any well-formed text looks like to the steps below.
        assert forall|a: Seq<u8>, b: Seq<u8>| s@ == #[trigger] braced_text(a, b) implies occurs_at(
            s@,
            open@,
            0,
        ) && occurs_at(s@.skip(1), close@, s@.skip(1).len() - 1) && s@.skip(1).take(
            s@.skip(1).len() - 1,
        ) == tuple_text(a, b) by {
            let rest = s@.skip(1);
            assert(s@.subrange(0, 1) =~= open@);
            assert(rest.subrange(rest.len() - 1, rest.len() as int) =~= close@);
            assert(rest.take(rest.len() - 1) =~= tuple_text(a, b));
        }
    }
    let rest = match strip_prefix(s, vstd::array::array_as_slice(&open)) {
        Some(rest) => rest,
        None => { return Err(()); },
    };
    assert(rest@ =~= s@.skip(1));
    let inner = match strip_suffix(rest, vstd::array::array_as_slice(&close)) {
        Some(inner) => inner,
        None => { return Err(()); },
    };
    assert(inner@ =~= rest@.take(rest@.len() - 1));
    match parse_tuple(inner) {
        Ok((a, b)) => {
            proof {
                assert(s@ =~= braced_text(a@, b@));
                lemma_pair_fields_of_text(a@, b@);
            }
            Ok((a, b))
        },
        Err(_) => Err(()),
    }
}

/// The text of a point, taken apart: the text of each field.
#[derive(Debug, PartialEq, Eq)]
pub struct PointText {
    pub x: Vec<u8>,
    pub y: Vec<u8>,
}

/// The text of a size, taken apart: the text of each field.
#[derive(Debug, PartialEq, Eq)]
pub struct SizeText {
    pub width: Vec<u8>,
    pub height: Vec<u8>,
}

/// The text of a rectangle, taken apart: the text of each field.
#[derive(Debug, PartialEq, Eq)]
pub struct RectText {
    pub origin: PointText,
    pub size: SizeText,
}

impl View for PointText {
    type V = (Seq<u8>, Seq<u8>);

    open spec fn view(&self) -> (Seq<u8>, Seq<u8>) {
        (self.x@, self.y@)
    }
}

impl View for SizeText {
    type V = (Seq<u8>, Seq<u8>);

    open spec fn view(&self) -> (Seq<u8>, Seq<u8>) {
        (self.width@, self.height@)
    }
}

impl View for RectText {
    type V = ((Seq<u8>, Seq<u8>), (Seq<u8>, Seq<u8>));

    open spec fn view(&self) -> ((Seq<u8>, Seq<u8>), (Seq<u8>, Seq<u8>)) {
        (self.origin@, self.size@)
    }
}

impl Clone for PointText {
    fn clone(&self) -> (text: PointText)
        ensures
            text@ == self@,
    {
        PointText { x: self.x.clone(), y: self.y.clone() }
    }
}

impl Clone for SizeText {
    fn clone(&self) -> (text: SizeText)
        ensures
            text@ == self@,
    {
        SizeText { width: self.width.clone(), height: self.height.clone() }
    }
}

impl Clone for RectText {
    fn clone(&self) -> (text: RectText)
        ensures
            text@ == self@,
    {
        RectText { origin: self.origin.clone(), size: self.size.clone() }
    }
}

/// `{a, b}`
fn format_braced(a: &[u8], b: &[u8]) -> (s: Vec<u8>)
    ensures
        s@ == braced_text(a@, b@),
{
    let mut s: Vec<u8> = Vec::new();
    s.push(OPEN_BRACE);
    s.extend_from_slice(a);
    s.push(COMMA);
    s.push(SPACE);
    s.extend_from_slice(b);
    s.push(CLOSE_BRACE);
    assert(s@ =~= braced_text(a@, b@));
    s
}

impl CGPoint {
    /// Takes the text of a point apart, if it is one: `{x, y}`.
    pub fn parse_text(s: &[u8]) -> (r: Result<PointText, ()>)
        ensures
            match r {
                Ok(text) => pair_fields(s@) == Some(text@),
                Err(_) => pair_fields(s@) is None,
            },
    {
        match parse_braced(s) {
            Ok((x, y)) => Ok(PointText { x, y }),
            Err(_) => Err(()),
        }
    }

    /// Writes a point whose fields have the texts given: `{x, y}`.
    pub fn format_text(text: &PointText) -> (s: Vec<u8>)
        ensures
            s@ == braced_text(text.x@, text.y@),
    {
        format_braced(text.x.as_slice(), text.y.as_slice())
    }
}

impl CGSize {
    /// Takes the text of a size apart, if it is one: `{width, height}`.
    pub fn parse_text(s: &[u8]) -> (r: Result<SizeText, ()>)
        ensures
            match r {
                Ok(text) => pair_fields(s@) == Some(text@),
                Err(_) => pair_fields(s@) is None,
            },
    {
        match parse_braced(s) {
            Ok((width, height)) => Ok(SizeText { width, height }),
            Err(_) => Err(()),
        }
    }

    /// Writes a size whose fields have the texts given: `{width, height}`.
    pub fn format_text(text: &SizeText) -> (s: Vec<u8>)
        ensures
            s@ == braced_text(text.width@, text.height@),
    {
        format_braced(text.width.as_slice(), text.height.as_slice())
    }
}

impl CGRect {
    /// Takes the text of a rectangle apart, if it is one:
    /// `{{x, y}, {width, height}}`.
    pub fn parse_text(s: &[u8]) -> (r: Result<RectText, ()>)
        ensures
            match r {
                Ok(text) => rect_fields(s@) == Some(text@),
                Err(_) => rect_fields(s@) is None,
            },
    {
        let (origin, size) = match rect_halves(s) {
            Some(halves) => halves,
            None => {
                proof {
                    lemma_rect_text_needs_halves(s@);
                }
                return Err(());
            },
        };
        let (x, y) = match parse_tuple(origin) {
            Ok(fields) => fields,
            Err(_) => {
                proof {
                    lemma_rect_text_needs_tuple_halves(s@, origin@, size@);
                }
                return Err(());
            },
        };
        let (width, height) = match parse_tuple(size) {
            Ok(fields) => fields,
            Err(_) => {
                proof {
                    lemma_rect_text_needs_tuple_halves(s@, origin@, size@);
                }
                return Err(());
            },
        };
        proof {
            lemma_rect_of_tuple_halves(s@, x@, y@, width@, height@);
        }
        Ok(RectText { origin: PointText { x, y }, size: SizeText { width, height } })
    }

    /// Writes a rectangle whose fields have the texts given:
    /// `{{x, y}, {width, height}}`.
    pub fn format_text(text: &RectText) -> (s: Vec<u8>)
        ensures
            s@ == rect_text(text.origin.x@, text.origin.y@, text.size.width@, text.size.height@),
    {
        let origin = CGPoint::format_text(&text.origin);
        let size = CGSize::format_text(&text.size);
        format_braced(origin.as_slice(), size.as_slice())
    }
}

} // verus!
