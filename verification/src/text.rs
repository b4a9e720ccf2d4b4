//! Strings read as sequences of characters.

use vstd::prelude::*;

verus! {

/// The characters of `s`, in order.
pub fn chars_of(s: &str) -> (v: Vec<char>)
    ensures
        v@ == s@,
{
    let mut v: Vec<char> = Vec::new();
    for c in it: s.chars()
        invariant
            it.seq() == s@,
            v@ == s@.take(it.index() as int),
    {
        v.push(c);
    }
    v
}

/// Whether two strings hold the same characters.
pub fn same_text(a: &str, b: &str) -> (same: bool)
    ensures
        same == (a@ == b@),
{
    let x = chars_of(a);
    let y = chars_of(b);
    if x.len() != y.len() {
        return false;
    }
    let mut k: usize = 0;
    while k < x.len()
        invariant
            0 <= k <= x.len(),
            x.len() == y.len(),
            x@ == a@,
            y@ == b@,
            forall|j: int| 0 <= j < k ==> x@[j] == y@[j],
        decreases x.len() - k,
    {
        if x[k] != y[k] {
            assert(a@[k as int] != b@[k as int]);
            return false;
        }
        k += 1;
    }
    assert(x@ =~= y@);
    true
}

/// `needle` occurs in `hay` at offset `at`.
pub open spec fn occurs_at(needle: Seq<char>, hay: Seq<char>, at: int) -> bool {
    &&& 0 <= at
    &&& at + needle.len() <= hay.len()
    &&& hay.subrange(at, at + needle.len()) == needle
}

/// `needle` occurs somewhere in `hay` as a contiguous run of characters.
pub open spec fn occurs_in(needle: Seq<char>, hay: Seq<char>) -> bool {
    exists|at: int| occurs_at(needle, hay, at)
}

/// Whether `needle` occurs in `hay` at offset `at`.
fn matches_at(hay: &Vec<char>, needle: &Vec<char>, at: usize) -> (b: bool)
    requires
        at + needle.len() <= hay.len(),
    ensures
        b == occurs_at(needle@, hay@, at as int),
{
    let mut k: usize = 0;
    while k < needle.len()
        invariant
            0 <= k <= needle.len(),
            at + needle.len() <= hay.len(),
            forall|j: int| 0 <= j < k ==> hay@[at + j] == needle@[j],
        decreases needle.len() - k,
    {
        if hay[at + k] != needle[k] {
            proof {
                let sub = hay@.subrange(at as int, at + needle.len());
                assert(sub[k as int] == hay@[at + k]);
            }
            return false;
        }
        k += 1;
    }
    assert(hay@.subrange(at as int, at + needle.len()) =~= needle@);
    true
}

/// Whether `needle` occurs in `hay` as a contiguous run of characters.
pub fn contains(hay: &str, needle: &str) -> (b: bool)
    ensures
        b == occurs_in(needle@, hay@),
{
    let h = chars_of(hay);
    let n = chars_of(needle);
    if n.len() == 0 {
        assert(occurs_at(n@, h@, 0)) by {
            assert(h@.subrange(0, 0) =~= n@);
        }
        return true;
    }
    let mut at: usize = 0;
    while at <= h.len() && h.len() - at >= n.len()
        invariant
            0 <= at <= h.len(),
            n.len() > 0,
            h@ == hay@,
            n@ == needle@,
            forall|j: int| 0 <= j < at ==> !occurs_at(n@, h@, j),
        decreases h.len() - at,
    {
        if matches_at(&h, &n, at) {
            return true;
        }
        at += 1;
    }
    false
}

/// Whether one of the strings in `list` holds the same characters as `s`.
pub fn holds_text(list: &Vec<String>, s: &str) -> (found: bool)
    ensures
        found == list.deep_view().contains(s@),
{
    let mut k: usize = 0;
    while k < list.len()
        invariant
            0 <= k <= list.len(),
            forall|j: int| 0 <= j < k ==> list.deep_view()[j] != s@,
        decreases list.len() - k,
    {
        if same_text(list[k].as_str(), s) {
            assert(list.deep_view()[k as int] == s@);
            return true;
        }
        k += 1;
    }
    false
}

/// A copy of every string in `list`, in order.
pub fn clone_texts(list: &Vec<String>) -> (copy: Vec<String>)
    ensures
        copy.deep_view() == list.deep_view(),
{
    let mut copy: Vec<String> = Vec::new();
    let mut k: usize = 0;
    while k < list.len()
        invariant
            0 <= k <= list.len(),
            copy.len() == k,
            forall|j: int| 0 <= j < k ==> copy@[j]@ == list@[j]@,
        decreases list.len() - k,
    {
        copy.push(list[k].clone());
        k += 1;
    }
    assert(copy.deep_view() =~= list.deep_view());
    copy
}

/// A copy of an optional string.
pub fn clone_opt_text(text: &Option<String>) -> (copy: Option<String>)
    ensures
        copy.deep_view() == text.deep_view(),
{
    match text {
        Some(s) => Some(s.clone()),
        None => None,
    }
}

/// `a` comes before `b` in the order of strings: at the first place where they
/// differ `a` has the lesser character, or `a` ends there and `b` goes on.
pub open spec fn text_before(a: Seq<char>, b: Seq<char>) -> bool
    decreases a.len(),
{
    if b.len() == 0 {
        false
    } else if a.len() == 0 {
        true
    } else if a[0] != b[0] {
        (a[0] as int) < (b[0] as int)
    } else {
        text_before(a.drop_first(), b.drop_first())
    }
}

/// Of two different strings one comes before the other.
pub proof fn text_order_is_total(a: Seq<char>, b: Seq<char>)
    ensures
        text_before(a, b) || text_before(b, a) || a == b,
    decreases a.len(),
{
    if a.len() > 0 && b.len() > 0 && a[0] == b[0] {
        text_order_is_total(a.drop_first(), b.drop_first());
        if a.drop_first() == b.drop_first() {
            assert(a =~= seq![a[0]] + a.drop_first());
            assert(b =~= seq![b[0]] + b.drop_first());
        }
    } else if a.len() == 0 && b.len() == 0 {
        assert(a =~= b);
    } else if a.len() > 0 && b.len() > 0 {
        assert(a[0] as int != b[0] as int);
    }
}

/// No string comes both before and after another.
pub proof fn text_order_is_asymmetric(a: Seq<char>, b: Seq<char>)
    ensures
        !(text_before(a, b) && text_before(b, a)),
    decreases a.len(),
{
    if a.len() > 0 && b.len() > 0 && a[0] == b[0] {
        text_order_is_asymmetric(a.drop_first(), b.drop_first());
    }
}

/// What comes before a string comes before all that the string comes before.
pub proof fn text_order_is_transitive(a: Seq<char>, b: Seq<char>, c: Seq<char>)
    requires
        text_before(a, b),
        text_before(b, c),
    ensures
        text_before(a, c),
    decreases a.len(),
{
    if a.len() > 0 && b.len() > 0 && c.len() > 0 && a[0] == b[0] && b[0] == c[0] {
        text_order_is_transitive(a.drop_first(), b.drop_first(), c.drop_first());
    }
}

/// Whether `a` comes before `b` in the order of strings.
pub fn is_text_before(a: &str, b: &str) -> (before: bool)
    ensures
        before == text_before(a@, b@),
{
    let x = chars_of(a);
    let y = chars_of(b);
    let mut k: usize = 0;
    assert(a@.skip(0) =~= a@);
    assert(b@.skip(0) =~= b@);
    while k < x.len() && k < y.len()
        invariant
            0 <= k <= x.len(),
            k <= y.len(),
            x@ == a@,
            y@ == b@,
            text_before(a@, b@) == text_before(a@.skip(k as int), b@.skip(k as int)),
        decreases x.len() - k,
    {
        proof {
            assert(a@.skip(k as int).drop_first() =~= a@.skip(k + 1));
            assert(b@.skip(k as int).drop_first() =~= b@.skip(k + 1));
            assert(a@.skip(k as int)[0] == x@[k as int]);
            assert(b@.skip(k as int)[0] == y@[k as int]);
        }
        let cx: char = x[k];
        let cy: char = y[k];
        if cx != cy {
            return cx < cy;
        }
        k += 1;
    }
    k < y.len()
}

/// The lower-case form of a string.
pub uninterp spec fn lowercase(s: Seq<char>) -> Seq<char>;

/// The lower-case form of `s`, as `str::to_lowercase` of the standard library
/// gives it. Nothing is claimed of the result but that it depends on the
/// characters of `s` alone.
#[verifier::external_body]
pub(crate) fn to_lowercase(s: &str) -> (lower: String)
    ensures
        lower@ == lowercase(s@),
{
    s.to_lowercase()
}

/// The piece read so far, as a list of zero or one pieces: an empty piece does
/// not count.
pub open spec fn closed(piece: Seq<char>) -> Seq<Seq<char>> {
    if piece.len() == 0 {
        Seq::empty()
    } else {
        seq![piece]
    }
}

/// The pieces of `s` between the separators `sep` that are not empty, where
/// `piece` holds the characters of the piece that was being read when `s` began.
pub open spec fn pieces(s: Seq<char>, sep: char, piece: Seq<char>) -> Seq<Seq<char>>
    decreases s.len(),
{
    if s.len() == 0 {
        closed(piece)
    } else if s[0] == sep {
        closed(piece) + pieces(s.drop_first(), sep, Seq::empty())
    } else {
        pieces(s.drop_first(), sep, piece.push(s[0]))
    }
}

/// The stretches of `s` that the spans `(from, to)` cut out.
pub open spec fn cut(s: Seq<char>, spans: Seq<(usize, usize)>) -> Seq<Seq<char>> {
    Seq::new(spans.len(), |k: int| s.subrange(spans[k].0 as int, spans[k].1 as int))
}

/// Every span lies within `s`.
pub open spec fn spans_within(s: Seq<char>, spans: Seq<(usize, usize)>) -> bool {
    forall|k: int| 0 <= k < spans.len() ==> 0 <= (#[trigger] spans[k]).0 <= spans[k].1 <= s.len()
}

/// Finds where each piece between the separators `sep` begins and ends, leaving
/// out the empty pieces.
pub fn piece_spans(chars: &Vec<char>, sep: char) -> (spans: Vec<(usize, usize)>)
    ensures
        spans_within(chars@, spans@),
        cut(chars@, spans@) == pieces(chars@, sep, Seq::empty()),
{
    let ghost s = chars@;
    let mut spans: Vec<(usize, usize)> = Vec::new();
    let mut start: usize = 0;
    let mut i: usize = 0;
    assert(cut(s, spans@) =~= Seq::empty());
    assert(s.skip(0) =~= s);
    assert(s.subrange(0, 0) =~= Seq::empty());
    while i < chars.len()
        invariant
            s == chars@,
            0 <= start <= i <= chars.len(),
            spans_within(s, spans@),
            pieces(s, sep, Seq::empty()) == cut(s, spans@) + pieces(
                s.skip(i as int),
                sep,
                s.subrange(start as int, i as int),
            ),
        decreases chars.len() - i,
    {
        let ghost rest = s.skip(i as int);
        let ghost piece = s.subrange(start as int, i as int);
        let ghost before = cut(s, spans@);
        assert(rest.drop_first() =~= s.skip(i + 1));
        if chars[i] == sep {
            if start < i {
                spans.push((start, i));
                assert(cut(s, spans@) =~= before + seq![piece]);
            }
            start = i + 1;
            assert(s.subrange(start as int, i + 1) =~= Seq::empty());
            assert(cut(s, spans@) + pieces(s.skip(i + 1), sep, Seq::empty()) =~= before + (closed(
                piece,
            ) + pieces(s.skip(i + 1), sep, Seq::empty())));
        } else {
            assert(piece.push(rest[0]) =~= s.subrange(start as int, i + 1));
        }
        i += 1;
    }
    let ghost before = cut(s, spans@);
    let ghost piece = s.subrange(start as int, i as int);
    if start < i {
        spans.push((start, i));
        assert(cut(s, spans@) =~= before + seq![piece]);
    } else {
        assert(before + closed(piece) =~= before);
    }
    spans
}

/// White space: the characters that separate words and lines.
pub open spec fn is_blank(c: char) -> bool {
    ||| '\u{9}' <= c <= '\u{d}'
    ||| c == ' '
    ||| c == '\u{85}'
    ||| c == '\u{a0}'
    ||| c == '\u{1680}'
    ||| '\u{2000}' <= c <= '\u{200a}'
    ||| c == '\u{2028}'
    ||| c == '\u{2029}'
    ||| c == '\u{202f}'
    ||| c == '\u{205f}'
    ||| c == '\u{3000}'
}

/// Whether the character is white space.
pub fn blank(c: char) -> (b: bool)
    ensures
        b == is_blank(c),
{
    ('\u{9}' <= c && c <= '\u{d}') || c == ' ' || c == '\u{85}' || c == '\u{a0}' || c == '\u{1680}'
        || ('\u{2000}' <= c && c <= '\u{200a}') || c == '\u{2028}' || c == '\u{2029}' || c
        == '\u{202f}' || c == '\u{205f}' || c == '\u{3000}'
}

/// `s` without the white space that begins it.
pub open spec fn trimmed_start(s: Seq<char>) -> Seq<char>
    decreases s.len(),
{
    if s.len() > 0 && is_blank(s[0]) {
        trimmed_start(s.drop_first())
    } else {
        s
    }
}

/// `s` without the white space that ends it.
pub open spec fn trimmed_end(s: Seq<char>) -> Seq<char>
    decreases s.len(),
{
    if s.len() > 0 && is_blank(s.last()) {
        trimmed_end(s.drop_last())
    } else {
        s
    }
}

/// `s` without the white space that begins and ends it.
pub open spec fn trimmed(s: Seq<char>) -> Seq<char> {
    trimmed_end(trimmed_start(s))
}

/// Where the stretch `from..to` of `chars` begins and ends once the white space
/// around it is left off.
fn trim_span(chars: &Vec<char>, from: usize, to: usize) -> (span: (usize, usize))
    requires
        from <= to <= chars.len(),
    ensures
        from <= span.0 <= span.1 <= to,
        chars@.subrange(span.0 as int, span.1 as int) == trimmed(
            chars@.subrange(from as int, to as int),
        ),
{
    let ghost s = chars@;
    let mut a: usize = from;
    while a < to && blank(chars[a])
        invariant
            from <= a <= to <= chars.len(),
            s == chars@,
            trimmed_start(s.subrange(from as int, to as int)) == trimmed_start(
                s.subrange(a as int, to as int),
            ),
        decreases to - a,
    {
        assert(s.subrange(a as int, to as int).drop_first() =~= s.subrange(a + 1, to as int));
        a += 1;
    }
    assert(trimmed_start(s.subrange(from as int, to as int)) == s.subrange(a as int, to as int));
    let mut b: usize = to;
    while a < b && blank(chars[b - 1])
        invariant
            a <= b <= to <= chars.len(),
            s == chars@,
            trimmed_end(s.subrange(a as int, to as int)) == trimmed_end(
                s.subrange(a as int, b as int),
            ),
        decreases b - a,
    {
        assert(s.subrange(a as int, b as int).drop_last() =~= s.subrange(a as int, b - 1));
        b -= 1;
    }
    (a, b)
}

/// `s` without the white space that begins and ends it.
pub fn trim(s: &str) -> (inner: String)
    ensures
        inner@ == trimmed(s@),
{
    let chars = chars_of(s);
    let span = trim_span(&chars, 0, chars.len());
    assert(chars@.subrange(0, chars.len() as int) =~= chars@);
    s.substring_char(span.0, span.1).to_owned()
}

/// The items of a list written with commas: the pieces between the commas of the
/// trimmed input that are not empty, each without the white space around it.
pub open spec fn listed_items(input: Seq<char>) -> Seq<Seq<char>> {
    pieces(trimmed(input), ',', Seq::empty()).map_values(|piece: Seq<char>| trimmed(piece))
}

/// The items of a list written with commas.
pub fn split_list(input: &str) -> (items: Vec<String>)
    ensures
        items.deep_view() == listed_items(input@),
{
    let whole = trim(input);
    let chars = chars_of(whole.as_str());
    let spans = piece_spans(&chars, ',');
    let ghost found = pieces(trimmed(input@), ',', Seq::empty());
    let mut items: Vec<String> = Vec::new();
    let mut k: usize = 0;
    while k < spans.len()
        invariant
            0 <= k <= spans.len(),
            chars@ == whole@,
            spans_within(chars@, spans@),
            cut(chars@, spans@) == found,
            items.len() == k,
            forall|j: int| 0 <= j < k ==> (#[trigger] items@[j])@ == trimmed(found[j]),
        decreases spans.len() - k,
    {
        let span = spans[k];
        assert(found[k as int] == chars@.subrange(span.0 as int, span.1 as int));
        let inner = trim_span(&chars, span.0, span.1);
        items.push(whole.as_str().substring_char(inner.0, inner.1).to_owned());
        k += 1;
    }
    assert(items.deep_view() =~= listed_items(input@));
    items
}

} // verus!
