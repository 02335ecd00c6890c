//! Character-level text helpers shared by the command-line front ends:
//! Unicode whitespace, splitting on a separator, trimming and decimal rendering.
use vstd::prelude::*;

verus! {

/// The characters that carry the Unicode `White_Space` property
/// (the set that `char::is_whitespace` and `str::trim` use).
pub open spec fn is_space(c: char) -> bool {
    ||| ('\u{9}' <= c && c <= '\u{d}')
    ||| c == ' '
    ||| c == '\u{85}'
    ||| c == '\u{a0}'
    ||| c == '\u{1680}'
    ||| ('\u{2000}' <= c && c <= '\u{200a}')
    ||| c == '\u{2028}'
    ||| c == '\u{2029}'
    ||| c == '\u{202f}'
    ||| c == '\u{205f}'
    ||| c == '\u{3000}'
}

/// Whether `c` is Unicode whitespace.
pub fn is_whitespace(c: char) -> (b: bool)
    ensures b == is_space(c),
{
    ('\u{9}' <= c && c <= '\u{d}') || c == ' ' || c == '\u{85}' || c == '\u{a0}'
        || c == '\u{1680}' || ('\u{2000}' <= c && c <= '\u{200a}') || c == '\u{2028}'
        || c == '\u{2029}' || c == '\u{202f}' || c == '\u{205f}' || c == '\u{3000}'
}

/// `s` without its leading whitespace.
pub open spec fn trim_start(s: Seq<char>) -> Seq<char>
    decreases s.len(),
{
    if s.len() > 0 && is_space(s[0]) {
        trim_start(s.drop_first())
    } else {
        s
    }
}

/// `s` without its trailing whitespace.
pub open spec fn trim_end(s: Seq<char>) -> Seq<char>
    decreases s.len(),
{
    if s.len() > 0 && is_space(s.last()) {
        trim_end(s.drop_last())
    } else {
        s
    }
}

/// `s` without leading and trailing whitespace, as `str::trim` gives it.
pub open spec fn trim(s: Seq<char>) -> Seq<char> {
    trim_end(trim_start(s))
}

/// The pieces of `s` between occurrences of `sep`, as `str::split` yields them:
/// one more piece than there are separators, empty pieces included.
pub open spec fn split_on(s: Seq<char>, sep: char) -> Seq<Seq<char>>
    decreases s.len(),
{
    if s.len() == 0 {
        seq![Seq::empty()]
    } else {
        let before = split_on(s.drop_last(), sep);
        if s.last() == sep {
            before.push(Seq::empty())
        } else {
            before.update(before.len() - 1, before.last().push(s.last()))
        }
    }
}

/// The trimmed pieces that are not empty, in their order.
pub open spec fn trimmed_nonempty(pieces: Seq<Seq<char>>) -> Seq<Seq<char>>
    decreases pieces.len(),
{
    if pieces.len() == 0 {
        Seq::empty()
    } else {
        let kept = trimmed_nonempty(pieces.drop_last());
        let t = trim(pieces.last());
        if t.len() > 0 {
            kept.push(t)
        } else {
            kept
        }
    }
}

/// Split `s` on `sep`, trim each piece and drop the empty ones.
pub open spec fn tokens(s: Seq<char>, sep: char) -> Seq<Seq<char>> {
    trimmed_nonempty(split_on(s, sep))
}

/// The views of a sequence of strings.
pub open spec fn string_views(v: Seq<String>) -> Seq<Seq<char>> {
    v.map_values(|x: String| x@)
}

/// `c` with ASCII upper-case letters mapped to lower case, other characters unchanged.
pub open spec fn ascii_lower(c: char) -> char {
    if 'A' <= c && c <= 'Z' {
        ((c as u32) + 32) as char
    } else {
        c
    }
}

/// Whether `a` and `b` are equal once ASCII letters are lower-cased
/// (`str::eq_ignore_ascii_case`).
pub open spec fn same_ignoring_ascii_case(a: Seq<char>, b: Seq<char>) -> bool {
    &&& a.len() == b.len()
    &&& forall|i: int| 0 <= i < a.len() ==> ascii_lower(#[trigger] a[i]) == ascii_lower(b[i])
}

fn lower_ascii_char(c: char) -> (r: char)
    ensures r == ascii_lower(c),
{
    if 'A' <= c && c <= 'Z' {
        ((c as u8) + 32) as char
    } else {
        c
    }
}

/// Whether `a` and `b` are equal ignoring the case of ASCII letters.
pub fn eq_ignore_ascii_case(a: &str, b: &str) -> (r: bool)
    ensures r == same_ignoring_ascii_case(a@, b@),
{
    let x = collect_chars(a);
    let y = collect_chars(b);
    if x.len() != y.len() {
        return false;
    }
    let mut i: usize = 0;
    while i < x.len()
        invariant
            x@ == a@,
            y@ == b@,
            x.len() == y.len(),
            i <= x.len(),
            forall|j: int| 0 <= j < i ==> ascii_lower(#[trigger] x@[j]) == ascii_lower(y@[j]),
        decreases x.len() - i,
    {
        if lower_ascii_char(x[i]) != lower_ascii_char(y[i]) {
            return false;
        }
        i = i + 1;
    }
    true
}

/// `s` in lower case, as `str::to_lowercase` gives it (Unicode case mapping).
pub uninterp spec fn lowercase_of(s: Seq<char>) -> Seq<char>;

/// `s` in lower case (`str::to_lowercase`).
#[verifier::external_body]
pub(crate) fn to_lowercase(s: &str) -> (r: String)
    ensures r@ == lowercase_of(s@),
{
    s.to_lowercase()
}

/// Appends `c` to `s` (`String::push`).
#[verifier::external_body]
pub(crate) fn push_char(s: &mut String, c: char)
    ensures final(s)@ == old(s)@.push(c),
{
    s.push(c);
}

proof fn lemma_split_pieces_lack_sep(s: Seq<char>, sep: char)
    ensures
        split_on(s, sep).len() >= 1,
        forall|k: int| 0 <= k < split_on(s, sep).len() ==> !(#[trigger] split_on(s, sep)[k]).contains(sep),
    decreases s.len(),
{
    if s.len() > 0 {
        let before = split_on(s.drop_last(), sep);
        lemma_split_pieces_lack_sep(s.drop_last(), sep);
        let after = split_on(s, sep);
        assert forall|k: int| 0 <= k < after.len() implies !(#[trigger] after[k]).contains(sep) by {
            if s.last() == sep {
                if k < before.len() {
                    assert(after[k] == before[k]);
                } else {
                    assert(after[k] =~= Seq::<char>::empty());
                }
            } else if k < before.len() - 1 {
                assert(after[k] == before[k]);
            } else {
                let p = before.last().push(s.last());
                assert(after[k] == p);
                if p.contains(sep) {
                    let j = choose|j: int| 0 <= j < p.len() && p[j] == sep;
                    if j < before.last().len() {
                        assert(before[before.len() - 1][j] == sep);
                    }
                }
            }
        }
    }
}

/// Appending text without `sep` extends the last piece.
pub proof fn lemma_split_extend(u: Seq<char>, v: Seq<char>, sep: char)
    requires !v.contains(sep),
    ensures
        split_on(u + v, sep) == split_on(u, sep).update(
            split_on(u, sep).len() - 1,
            split_on(u, sep).last() + v,
        ),
    decreases v.len(),
{
    lemma_split_pieces_lack_sep(u, sep);
    if v.len() == 0 {
        assert(u + v =~= u);
        assert(split_on(u, sep).last() + v =~= split_on(u, sep).last());
        assert(split_on(u, sep).update(split_on(u, sep).len() - 1, split_on(u, sep).last()) =~= split_on(u, sep));
    } else {
        let w = v.drop_last();
        assert(!w.contains(sep)) by {
            if w.contains(sep) {
                let j = choose|j: int| 0 <= j < w.len() && w[j] == sep;
                assert(v[j] == sep);
            }
        }
        lemma_split_extend(u, w, sep);
        assert((u + v).drop_last() =~= u + w);
        assert((u + v).last() == v.last());
        assert(v.last() != sep) by {
            assert(v[v.len() - 1] == v.last());
        }
        let base = split_on(u, sep);
        let before = split_on(u + w, sep);
        assert(before == base.update(base.len() - 1, base.last() + w));
        assert(before.len() == base.len());
        assert(before.last() == base.last() + w);
        assert(split_on(u + v, sep) == before.update(before.len() - 1, before.last().push(v.last())));
        assert(base.last() + w + seq![v.last()] =~= base.last() + v);
        assert((base.last() + w).push(v.last()) =~= base.last() + v);
        assert(split_on(u + v, sep) =~= base.update(base.len() - 1, base.last() + v));
    }
}

/// Text without `sep` is a single piece.
pub proof fn lemma_split_single(v: Seq<char>, sep: char)
    requires !v.contains(sep),
    ensures split_on(v, sep) == seq![v],
{
    lemma_split_extend(Seq::empty(), v, sep);
    assert(Seq::<char>::empty() + v =~= v);
    assert(Seq::<char>::empty() + v =~= v);
    assert(seq![Seq::<char>::empty()].update(0, Seq::<char>::empty() + v) =~= seq![v]);
}

/// Two texts without `sep`, joined by one `sep`, split into exactly those two.
pub proof fn lemma_split_pair(a: Seq<char>, b: Seq<char>, sep: char)
    requires
        !a.contains(sep),
        !b.contains(sep),
    ensures split_on(a + seq![sep] + b, sep) == seq![a, b],
{
    lemma_split_single(a, sep);
    let ax = a + seq![sep];
    assert(ax.drop_last() =~= a);
    assert(split_on(ax, sep) =~= seq![a, Seq::<char>::empty()]);
    lemma_split_extend(ax, b, sep);
    assert(Seq::<char>::empty() + b =~= b);
    assert(split_on(ax + b, sep) =~= seq![a, b]);
}

proof fn lemma_trim_keeps_absence(p: Seq<char>, c: char)
    requires !p.contains(c),
    ensures !trim(p).contains(c),
{
    lemma_trim_start_keeps_absence(p, c);
    lemma_trim_end_keeps_absence(trim_start(p), c);
}

proof fn lemma_trim_start_keeps_absence(p: Seq<char>, c: char)
    requires !p.contains(c),
    ensures !trim_start(p).contains(c),
    decreases p.len(),
{
    if p.len() > 0 && is_space(p[0]) {
        assert forall|j: int| 0 <= j < p.drop_first().len() implies p.drop_first()[j] != c by {
            assert(p.drop_first()[j] == p[j + 1]);
        }
        lemma_trim_start_keeps_absence(p.drop_first(), c);
    }
}

proof fn lemma_trim_end_keeps_absence(p: Seq<char>, c: char)
    requires !p.contains(c),
    ensures !trim_end(p).contains(c),
    decreases p.len(),
{
    if p.len() > 0 && is_space(p.last()) {
        assert forall|j: int| 0 <= j < p.drop_last().len() implies p.drop_last()[j] != c by {
            assert(p.drop_last()[j] == p[j]);
        }
        lemma_trim_end_keeps_absence(p.drop_last(), c);
    }
}

proof fn lemma_trim_start_shape(p: Seq<char>)
    ensures
        trim_start(p).len() > 0 ==> !is_space(trim_start(p)[0]),
    decreases p.len(),
{
    if p.len() > 0 && is_space(p[0]) {
        lemma_trim_start_shape(p.drop_first());
    }
}

proof fn lemma_trim_end_shape(q: Seq<char>)
    ensures
        trim_end(q).len() <= q.len(),
        trim_end(q).len() > 0 ==> !is_space(trim_end(q).last()),
        trim_end(q).len() > 0 ==> trim_end(q)[0] == q[0],
    decreases q.len(),
{
    if q.len() > 0 && is_space(q.last()) {
        lemma_trim_end_shape(q.drop_last());
    }
}

proof fn lemma_trimmed_nonempty_members(pieces: Seq<Seq<char>>)
    ensures
        forall|i: int| 0 <= i < trimmed_nonempty(pieces).len() ==> exists|k: int|
            0 <= k < pieces.len() && #[trigger] trimmed_nonempty(pieces)[i] == trim(pieces[k])
                && trim(pieces[k]).len() > 0,
    decreases pieces.len(),
{
    if pieces.len() > 0 {
        lemma_trimmed_nonempty_members(pieces.drop_last());
        let kept = trimmed_nonempty(pieces.drop_last());
        let all = trimmed_nonempty(pieces);
        assert forall|i: int| 0 <= i < all.len() implies exists|k: int|
            0 <= k < pieces.len() && #[trigger] all[i] == trim(pieces[k]) && trim(pieces[k]).len() > 0 by {
            if i < kept.len() {
                let k = choose|k: int| 0 <= k < pieces.drop_last().len() && kept[i] == trim(pieces.drop_last()[k])
                    && trim(pieces.drop_last()[k]).len() > 0;
                assert(pieces.drop_last()[k] == pieces[k]);
                assert(all[i] == kept[i]);
            } else {
                assert(all[i] == trim(pieces[pieces.len() - 1]));
            }
        }
    }
}

/// Every token of `s` is non-empty, holds no separator, and neither starts nor
/// ends with whitespace.
pub proof fn lemma_tokens_are_clean(s: Seq<char>, sep: char)
    ensures
        forall|i: int| 0 <= i < tokens(s, sep).len() ==> {
            let t = #[trigger] tokens(s, sep)[i];
            &&& t.len() > 0
            &&& !t.contains(sep)
            &&& !is_space(t[0])
            &&& !is_space(t.last())
        },
{
    let pieces = split_on(s, sep);
    lemma_split_pieces_lack_sep(s, sep);
    lemma_trimmed_nonempty_members(pieces);
    assert forall|i: int| 0 <= i < tokens(s, sep).len() implies {
        let t = #[trigger] tokens(s, sep)[i];
        &&& t.len() > 0
        &&& !t.contains(sep)
        &&& !is_space(t[0])
        &&& !is_space(t.last())
    } by {
        let t = tokens(s, sep)[i];
        let k = choose|k: int| 0 <= k < pieces.len() && t == trim(pieces[k]) && trim(pieces[k]).len() > 0;
        let p = pieces[k];
        lemma_trim_keeps_absence(p, sep);
        lemma_trim_start_shape(p);
        lemma_trim_end_shape(trim_start(p));
    }
}

/// The pieces joined into one text, `sep` between each two (`[String]::join`).
pub open spec fn join_with(pieces: Seq<Seq<char>>, sep: char) -> Seq<char>
    decreases pieces.len(),
{
    if pieces.len() == 0 {
        Seq::empty()
    } else if pieces.len() == 1 {
        pieces[0]
    } else {
        join_with(pieces.drop_last(), sep) + seq![sep] + pieces.last()
    }
}

proof fn lemma_split_join(pieces: Seq<Seq<char>>, sep: char)
    requires
        pieces.len() >= 1,
        forall|k: int| 0 <= k < pieces.len() ==> !(#[trigger] pieces[k]).contains(sep),
    ensures split_on(join_with(pieces, sep), sep) == pieces,
    decreases pieces.len(),
{
    if pieces.len() == 1 {
        lemma_split_single(pieces[0], sep);
        assert(seq![pieces[0]] =~= pieces);
    } else {
        let init = pieces.drop_last();
        assert forall|k: int| 0 <= k < init.len() implies !(#[trigger] init[k]).contains(sep) by {
            assert(init[k] == pieces[k]);
        }
        lemma_split_join(init, sep);
        let j = join_with(init, sep);
        let jx = j + seq![sep];
        assert(jx.drop_last() =~= j);
        assert(split_on(jx, sep) == init.push(Seq::empty()));
        assert(!pieces.last().contains(sep)) by {
            assert(pieces[pieces.len() - 1] == pieces.last());
        }
        lemma_split_extend(jx, pieces.last(), sep);
        assert(Seq::<char>::empty() + pieces.last() =~= pieces.last());
        assert(init.push(Seq::empty()).update(init.len() as int, pieces.last()) =~= pieces);
    }
}

proof fn lemma_clean_pieces_kept(pieces: Seq<Seq<char>>)
    requires
        forall|k: int| 0 <= k < pieces.len() ==> {
            let t = #[trigger] pieces[k];
            &&& t.len() > 0
            &&& !is_space(t[0])
            &&& !is_space(t.last())
        },
    ensures trimmed_nonempty(pieces) == pieces,
    decreases pieces.len(),
{
    if pieces.len() > 0 {
        let init = pieces.drop_last();
        assert forall|k: int| 0 <= k < init.len() implies {
            let t = #[trigger] init[k];
            &&& t.len() > 0
            &&& !is_space(t[0])
            &&& !is_space(t.last())
        } by {
            assert(init[k] == pieces[k]);
        }
        lemma_clean_pieces_kept(init);
        let t = pieces.last();
        assert(t == pieces[pieces.len() - 1]);
        assert(trim_start(t) == t);
        assert(trim_end(t) == t);
        assert(init.push(t) =~= pieces);
    }
}

/// Joining the tokens of `s` with the separator and splitting again gives the same
/// tokens back.
pub proof fn lemma_tokens_rejoined(s: Seq<char>, sep: char)
    ensures tokens(join_with(tokens(s, sep), sep), sep) == tokens(s, sep),
{
    let t = tokens(s, sep);
    lemma_tokens_are_clean(s, sep);
    if t.len() == 0 {
        assert(split_on(Seq::<char>::empty(), sep) == seq![Seq::<char>::empty()]);
        assert(seq![Seq::<char>::empty()].drop_last() =~= Seq::<Seq<char>>::empty());
        assert(trim_start(Seq::<char>::empty()) == Seq::<char>::empty());
        assert(trim_end(Seq::<char>::empty()) == Seq::<char>::empty());
        assert(join_with(t, sep) == Seq::<char>::empty());
        assert(trimmed_nonempty(Seq::<Seq<char>>::empty()) == Seq::<Seq<char>>::empty());
        assert(trimmed_nonempty(seq![Seq::<char>::empty()]) =~= Seq::<Seq<char>>::empty());
        assert(t =~= Seq::<Seq<char>>::empty());
    } else {
        lemma_split_join(t, sep);
        lemma_clean_pieces_kept(t);
    }
}

/// Whether the text of `a` is `b`.
pub(crate) fn same_text(a: &String, b: &str) -> (r: bool)
    ensures r == (a@ == b@),
{
    let owned = b.to_owned();
    *a == owned
}

/// The characters of `s`, one by one.
pub(crate) fn collect_chars(s: &str) -> (v: Vec<char>)
    ensures v@ == s@,
{
    let mut v: Vec<char> = Vec::new();
    for c in it: s.chars()
        invariant
            v@ == it.seq().take(it.index()),
    {
        v.push(c);
    }
    v
}

/// A `String` made of `chars[lo..hi]`.
pub(crate) fn string_of(chars: &Vec<char>, lo: usize, hi: usize) -> (r: String)
    requires lo <= hi <= chars.len(),
    ensures r@ == chars@.subrange(lo as int, hi as int),
{
    let mut r = String::new();
    let mut i = lo;
    while i < hi
        invariant
            lo <= i <= hi <= chars.len(),
            r@ == chars@.subrange(lo as int, i as int),
        decreases hi - i,
    {
        push_char(&mut r, chars[i]);
        i = i + 1;
        assert(r@ =~= chars@.subrange(lo as int, i as int));
    }
    r
}

/// The bounds of `chars[lo..hi]` once whitespace is trimmed from both ends.
pub(crate) fn trim_bounds(chars: &Vec<char>, lo: usize, hi: usize) -> (r: (usize, usize))
    requires lo <= hi <= chars.len(),
    ensures
        lo <= r.0 <= r.1 <= hi,
        chars@.subrange(r.0 as int, r.1 as int) == trim(chars@.subrange(lo as int, hi as int)),
{
    let ghost s = chars@;
    let mut a = lo;
    while a < hi && is_whitespace(chars[a])
        invariant
            lo <= a <= hi <= chars.len(),
            s == chars@,
            trim_start(s.subrange(lo as int, hi as int)) == trim_start(s.subrange(a as int, hi as int)),
        decreases hi - a,
    {
        assert(s.subrange(a as int, hi as int).drop_first() =~= s.subrange(a + 1, hi as int));
        a = a + 1;
    }
    let mut b = hi;
    while b > a && is_whitespace(chars[b - 1])
        invariant
            lo <= a <= b <= hi <= chars.len(),
            s == chars@,
            trim_end(s.subrange(a as int, hi as int)) == trim_end(s.subrange(a as int, b as int)),
        decreases b - a,
    {
        assert(s.subrange(a as int, b as int).drop_last() =~= s.subrange(a as int, b - 1));
        b = b - 1;
    }
    (a, b)
}

/// The bounds, within `chars`, of the pieces between occurrences of `sep`.
pub(crate) fn split_ranges(chars: &Vec<char>, sep: char) -> (r: Vec<(usize, usize)>)
    ensures
        r@.len() == split_on(chars@, sep).len(),
        r@.len() >= 1,
        r@[0].0 == 0,
        r@.last().1 == chars@.len(),
        forall|k: int| #![trigger r@[k]] 0 <= k < r@.len() - 1 ==> {
            &&& r@[k].1 < chars@.len()
            &&& chars@[r@[k].1 as int] == sep
            &&& r@[k + 1].0 == r@[k].1 + 1
        },
        forall|k: int| #![trigger r@[k]] 0 <= k < r@.len() ==> {
            &&& r@[k].0 <= r@[k].1 <= chars@.len()
            &&& chars@.subrange(r@[k].0 as int, r@[k].1 as int) == split_on(chars@, sep)[k]
        },
{
    let n = chars.len();
    let ghost cs = chars@;
    let mut ranges: Vec<(usize, usize)> = Vec::new();
    let mut start: usize = 0;
    let mut i: usize = 0;
    assert(cs.take(0) =~= Seq::<char>::empty());
    assert(split_on(cs.take(0), sep) =~= seq![cs.subrange(0, 0)]);
    while i < n
        invariant
            cs == chars@,
            n == chars.len(),
            start <= i <= n,
            split_on(cs.take(i as int), sep).len() == ranges@.len() + 1,
            split_on(cs.take(i as int), sep).last() == cs.subrange(start as int, i as int),
            ranges@.len() == 0 ==> start == 0,
            ranges@.len() > 0 ==> ranges@[0].0 == 0 && start == ranges@.last().1 + 1,
            forall|k: int| #![trigger ranges@[k]] 0 <= k < ranges@.len() ==> {
                &&& ranges@[k].1 < i
                &&& cs[ranges@[k].1 as int] == sep
                &&& (k + 1 < ranges@.len() ==> ranges@[k + 1].0 == ranges@[k].1 + 1)
            },
            forall|k: int| #![trigger ranges@[k]] 0 <= k < ranges@.len() ==> {
                &&& ranges@[k].0 <= ranges@[k].1 <= n
                &&& cs.subrange(ranges@[k].0 as int, ranges@[k].1 as int) == split_on(cs.take(i as int), sep)[k]
            },
        decreases n - i,
    {
        let c = chars[i];
        let ghost before = split_on(cs.take(i as int), sep);
        let ghost old_len = ranges@.len();
        assert(cs.take(i + 1).drop_last() =~= cs.take(i as int));
        assert(cs.take(i + 1).last() == c);
        if c == sep {
            ranges.push((start, i));
            start = i + 1;
            assert(cs.subrange(start as int, start as int) =~= Seq::<char>::empty());
        } else {
            assert(cs.subrange(start as int, i + 1) =~= cs.subrange(start as int, i as int).push(c));
        }
        i = i + 1;
        assert forall|k: int| #![trigger ranges@[k]] 0 <= k < ranges@.len() implies {
            &&& ranges@[k].0 <= ranges@[k].1 <= n
            &&& cs.subrange(ranges@[k].0 as int, ranges@[k].1 as int) == split_on(cs.take(i as int), sep)[k]
        } by {
            if k < old_len {
                assert(split_on(cs.take(i as int), sep)[k] == before[k]);
            }
        }
    }
    assert(cs.take(n as int) =~= cs);
    ranges.push((start, n));
    ranges
}

/// Splits `s` on `sep`, trims each piece and keeps the pieces that are not empty.
pub fn split_trimmed(s: &str, sep: char) -> (r: Vec<String>)
    ensures string_views(r@) == tokens(s@, sep),
{
    let chars = collect_chars(s);
    let ranges = split_ranges(&chars, sep);
    let ghost pieces = split_on(chars@, sep);
    assert forall|j: int| #![trigger ranges@[j]] 0 <= j < ranges@.len() implies {
        &&& ranges@[j].0 <= ranges@[j].1 <= chars@.len()
        &&& chars@.subrange(ranges@[j].0 as int, ranges@[j].1 as int) == pieces[j]
    } by {
        assert(chars@.subrange(ranges@[j].0 as int, ranges@[j].1 as int) == split_on(chars@, sep)[j]);
    }
    let mut result: Vec<String> = Vec::new();
    let mut k: usize = 0;
    assert(pieces.take(0) =~= Seq::<Seq<char>>::empty());
    while k < ranges.len()
        invariant
            pieces == split_on(chars@, sep),
            ranges@.len() == pieces.len(),
            forall|j: int| #![trigger ranges@[j]] 0 <= j < ranges@.len() ==> {
                &&& ranges@[j].0 <= ranges@[j].1 <= chars@.len()
                &&& chars@.subrange(ranges@[j].0 as int, ranges@[j].1 as int) == pieces[j]
            },
            k <= ranges@.len(),
            string_views(result@) == trimmed_nonempty(pieces.take(k as int)),
        decreases ranges@.len() - k,
    {
        let (lo, hi) = ranges[k];
        assert(chars@.subrange(ranges@[k as int].0 as int, ranges@[k as int].1 as int) == pieces[k as int]);
        let (a, b) = trim_bounds(&chars, lo, hi);
        assert(pieces.take(k + 1).drop_last() =~= pieces.take(k as int));
        assert(pieces.take(k + 1).last() == pieces[k as int]);
        if a < b {
            let t = string_of(&chars, a, b);
            result.push(t);
        }
        assert(string_views(result@) =~= trimmed_nonempty(pieces.take(k + 1)));
        k = k + 1;
    }
    assert(pieces.take(k as int) =~= pieces);
    result
}

}
