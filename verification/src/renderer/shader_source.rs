//! The source file of a shader program: one text holding the vertex and
//! the fragment stage, each in a region opened by a line `#[vertex]` or
//! `#[fragment]`. Every block comment of the file is dropped before the
//! regions are looked for.

use vstd::prelude::*;
use crate::text::{to_chars, string_of_range, range_is};

verus! {

/// Whether the regex crate counts `c` among word characters (`\w`).
pub uninterp spec fn word_char(c: char) -> bool;

/// Whether `c` is a word character as the regex crate's class `\w` has it
/// (Unicode letters, marks, decimal digits, connector punctuation and join
/// controls). Nothing more of the class is claimed.
#[verifier::external_body]
fn is_word_char(c: char) -> (r: bool)
    ensures
        r == word_char(c),
{
    let mut buf = [0u8; 4];
    regex::Regex::new(r"\A\w\z").unwrap().is_match(c.encode_utf8(&mut buf))
}

/// Whether `c` may stand in a region's name: among ASCII characters the
/// letters, the digits and the underscore (the regex crate's documented
/// `\w` there), beyond ASCII whatever the regex crate counts as a word
/// character.
pub open spec fn name_char(c: char) -> bool {
    if (c as u32) < 128 {
        'a' <= c <= 'z' || 'A' <= c <= 'Z' || '0' <= c <= '9' || c == '_'
    } else {
        word_char(c)
    }
}

fn is_name_char(c: char) -> (r: bool)
    ensures
        r == name_char(c),
{
    if (c as u32) < 128 {
        ('a' <= c && c <= 'z') || ('A' <= c && c <= 'Z') || ('0' <= c && c <= '9') || c == '_'
    } else {
        is_word_char(c)
    }
}

/// A block comment opens at `i`.
pub open spec fn opens_at(t: Seq<char>, i: int) -> bool {
    0 <= i && i + 1 < t.len() && t[i] == '/' && t[i + 1] == '*'
}

/// A block comment closes at `j`.
pub open spec fn closes_at(t: Seq<char>, j: int) -> bool {
    0 <= j && j + 1 < t.len() && t[j] == '*' && t[j + 1] == '/'
}

/// The things the source file is searched for.
pub enum Sought {
    /// The start of a block comment.
    CommentOpen,
    /// The end of a block comment.
    CommentClose,
    /// A region marker.
    Marker,
}

/// Whether the sought thing is at `i`.
pub open spec fn found_at(t: Seq<char>, what: Sought, i: int) -> bool {
    match what {
        Sought::CommentOpen => opens_at(t, i),
        Sought::CommentClose => closes_at(t, i),
        Sought::Marker => marker_at(t, i) is Some,
    }
}

/// The first position at or after `from` where the sought thing is, if any.
#[verifier::opaque]
pub open spec fn first_where(t: Seq<char>, from: int, what: Sought) -> Option<int> {
    if exists|i: int| from <= i && #[trigger] found_at(t, what, i) {
        Some(choose|i: int| from <= i && #[trigger] found_at(t, what, i) && forall|k: int| from <= k < i ==> !#[trigger] found_at(t, what, k))
    } else {
        None
    }
}

/// The text from `pos` on without its block comments, scanning left to
/// right: each comment runs from a `/*` to the first `*/` after it, and the
/// scan goes on after that `*/`. A `/*` without a `*/` after it stays.
pub open spec fn strip_from(t: Seq<char>, pos: int) -> Seq<char>
    decreases t.len() - pos,
{
    if pos < 0 || pos > t.len() {
        Seq::empty()
    } else {
        match first_where(t, pos, Sought::CommentOpen) {
            Some(i) => match first_where(t, i + 2, Sought::CommentClose) {
                Some(j) => if pos <= i && i + 2 <= j && j + 2 <= t.len() {
                    t.subrange(pos, i) + strip_from(t, j + 2)
                } else {
                    t.skip(pos)
                },
                None => t.skip(pos),
            },
            None => t.skip(pos),
        }
    }
}

/// The text without its block comments.
pub open spec fn without_comments(t: Seq<char>) -> Seq<char> {
    strip_from(t, 0)
}

/// The number of word characters in a row from `a` on.
pub open spec fn word_run(t: Seq<char>, a: int) -> nat
    decreases t.len() - a,
{
    if 0 <= a < t.len() && name_char(t[a]) {
        1 + word_run(t, a + 1)
    } else {
        0
    }
}

/// Where a tag `#[name]` that starts at `a` ends.
pub open spec fn tag_end(t: Seq<char>, a: int) -> Option<int> {
    let w = word_run(t, a + 2) as int;
    if 0 <= a && a + 1 < t.len() && t[a] == '#' && t[a + 1] == '[' && w > 0 && a + 2 + w < t.len()
        && t[a + 2 + w] == ']' {
        Some(a + 3 + w)
    } else {
        None
    }
}

/// Whether a line begins at `p`.
pub open spec fn line_start(t: Seq<char>, p: int) -> bool {
    p == 0 || (0 < p <= t.len() && t[p - 1] == '\n')
}

/// The region marker that starts at `p`, as where its name starts and
/// where it ends: a tag at the start of a line, or a line break at the
/// start of a line followed by a tag.
pub open spec fn marker_at(t: Seq<char>, p: int) -> Option<(int, int)> {
    if !(0 <= p < t.len()) || !line_start(t, p) {
        None
    } else if tag_end(t, p) is Some {
        Some((p + 2, tag_end(t, p)->0))
    } else if t[p] == '\n' && tag_end(t, p + 1) is Some {
        Some((p + 3, tag_end(t, p + 1)->0))
    } else {
        None
    }
}

/// The first marker at or after `start`.
pub open spec fn next_marker(t: Seq<char>, start: int) -> Option<int> {
    first_where(t, start, Sought::Marker)
}

/// A region: its name, and where its text starts and ends.
pub type Region = (Seq<char>, int, int);

/// The regions from `start` on, in order: each runs from the end of its
/// marker to the start of the next marker or the end of the text.
pub open spec fn regions_from(t: Seq<char>, start: int) -> Seq<Region>
    decreases t.len() - start,
{
    if start < 0 || start > t.len() {
        Seq::empty()
    } else {
        match next_marker(t, start) {
            Some(p) => {
                let (ns, e) = marker_at(t, p)->0;
                if start <= p && p < e && e <= t.len() {
                    let end = match next_marker(t, e) {
                        Some(q) => q,
                        None => t.len() as int,
                    };
                    seq![(t.subrange(ns, e - 1), e, end)] + regions_from(t, e)
                } else {
                    Seq::empty()
                }
            },
            None => Seq::empty(),
        }
    }
}

/// The text of the last region with the given name.
pub open spec fn last_named(t: Seq<char>, rs: Seq<Region>, name: Seq<char>) -> Option<Seq<char>>
    decreases rs.len(),
{
    if rs.len() == 0 {
        None
    } else if rs.last().0 == name {
        Some(t.subrange(rs.last().1, rs.last().2))
    } else {
        last_named(t, rs.drop_last(), name)
    }
}

/// What a shader source file splits into: the texts of its last `vertex`
/// and last `fragment` region, or the error for the one missing first.
pub open spec fn split_sources(src: Seq<char>) -> Result<(Seq<char>, Seq<char>), Seq<char>> {
    let t = without_comments(src);
    let rs = regions_from(t, 0);
    match last_named(t, rs, "vertex"@) {
        None => Err("did not find vertex region in shader"@),
        Some(v) => match last_named(t, rs, "fragment"@) {
            None => Err("did not find fragment region in shader"@),
            Some(f) => Ok((v, f)),
        },
    }
}

/// The first position where `f` holds is the one before which it nowhere
/// holds.
proof fn lemma_first_where_some(t: Seq<char>, from: int, what: Sought, i: int)
    requires
        from <= i,
        found_at(t, what, i),
        forall|k: int| from <= k < i ==> !#[trigger] found_at(t, what, k),
    ensures
        first_where(t, from, what) == Some(i),
{
    reveal(first_where);
    let c = choose|c: int| from <= c && #[trigger] found_at(t, what, c) && forall|k: int| from <= k < c ==> !#[trigger] found_at(t, what, k);
    assert(from <= c && found_at(t, what, c));
    if c < i {
        assert(!found_at(t, what, c));
    } else if c > i {
        assert(!found_at(t, what, i));
    }
}

/// Where `f` holds nowhere from `from` on, there is no first position.
proof fn lemma_first_where_none(t: Seq<char>, from: int, what: Sought)
    requires
        forall|k: int| from <= k ==> !#[trigger] found_at(t, what, k),
    ensures
        first_where(t, from, what) is None,
{
    reveal(first_where);
}

/// The first position at or after `from` where the sought comment
/// delimiter stands.
fn find_delimiter(t: &Vec<char>, from: usize, what: Sought) -> (r: Option<usize>)
    requires
        from <= t@.len(),
        what != Sought::Marker,
    ensures
        r matches Some(i) ==> first_where(t@, from as int, what) == Some(i as int) && from <= i && i + 1 < t@.len(),
        r is None ==> first_where(t@, from as int, what) is None,
{
    let n = t.len();
    let (a, b) = match what {
        Sought::CommentOpen => ('/', '*'),
        _ => ('*', '/'),
    };
    let mut i: usize = from;
    while i < n
        invariant
            n == t@.len(),
            from <= i <= n,
            what != Sought::Marker,
            a == (if what == Sought::CommentOpen { '/' } else { '*' }),
            b == (if what == Sought::CommentOpen { '*' } else { '/' }),
            forall|k: int| from <= k < i ==> !#[trigger] found_at(t@, what, k),
        decreases n - i,
    {
        if i + 1 < n && t[i] == a && t[i + 1] == b {
            proof {
                lemma_first_where_some(t@, from as int, what, i as int);
            }
            return Some(i);
        }
        i = i + 1;
    }
    proof {
        assert forall|k: int| from <= k implies !#[trigger] found_at(t@, what, k) by {
            if k >= i {
                assert(!opens_at(t@, k) && !closes_at(t@, k));
            }
        }
        lemma_first_where_none(t@, from as int, what);
    }
    None
}

/// A text in which no block comment opens is left as it is.
pub proof fn law_text_without_comments_unchanged(t: Seq<char>)
    requires
        forall|i: int| !#[trigger] opens_at(t, i),
    ensures
        without_comments(t) == t,
{
    assert forall|k: int| 0 <= k implies !#[trigger] found_at(t, Sought::CommentOpen, k) by {
        assert(!opens_at(t, k));
    }
    lemma_first_where_none(t, 0, Sought::CommentOpen);
    assert(t.skip(0) =~= t);
}

/// The first block comment goes, from its `/*` through the first `*/` after
/// it, with nothing before it touched; the scan goes on after the `*/`.
pub proof fn law_first_comment_removed(t: Seq<char>, i: int, j: int)
    requires
        opens_at(t, i),
        forall|k: int| 0 <= k < i ==> !#[trigger] opens_at(t, k),
        closes_at(t, j),
        i + 2 <= j,
        forall|k: int| i + 2 <= k < j ==> !#[trigger] closes_at(t, k),
    ensures
        without_comments(t) == t.take(i) + strip_from(t, j + 2),
{
    assert forall|k: int| 0 <= k < i implies !#[trigger] found_at(t, Sought::CommentOpen, k) by {
        assert(!opens_at(t, k));
    }
    assert(found_at(t, Sought::CommentOpen, i));
    lemma_first_where_some(t, 0, Sought::CommentOpen, i);
    assert forall|k: int| i + 2 <= k < j implies !#[trigger] found_at(t, Sought::CommentClose, k) by {
        assert(!closes_at(t, k));
    }
    assert(found_at(t, Sought::CommentClose, j));
    lemma_first_where_some(t, i + 2, Sought::CommentClose, j);
    assert(t.subrange(0, i) =~= t.take(i));
}

/// The text without its block comments.
pub fn strip_comments(t: &Vec<char>) -> (r: Vec<char>)
    ensures
        r@ == without_comments(t@),
{
    let n = t.len();
    let mut out: Vec<char> = Vec::new();
    let mut pos: usize = 0;
    loop
        invariant
            n == t@.len(),
            0 <= pos <= n,
            without_comments(t@) == out@ + strip_from(t@, pos as int),
        decreases n - pos,
    {
        let (end, next) = match find_delimiter(t, pos, Sought::CommentOpen) {
            Some(i) => match find_delimiter(t, i + 2, Sought::CommentClose) {
                Some(j) => (i, Some(j + 2)),
                None => (n, None),
            },
            None => (n, None),
        };
        let mut k: usize = pos;
        let ghost before = out@;
        while k < end
            invariant
                n == t@.len(),
                pos <= k <= end <= n,
                out@ =~= before + t@.subrange(pos as int, k as int),
            decreases end - k,
        {
            out.push(t[k]);
            k = k + 1;
        }
        match next {
            Some(p) => {
                proof {
                    assert(strip_from(t@, pos as int) == t@.subrange(pos as int, end as int) + strip_from(t@, p as int));
                    assert(before + (t@.subrange(pos as int, end as int) + strip_from(t@, p as int))
                        =~= out@ + strip_from(t@, p as int));
                }
                pos = p;
            },
            None => {
                proof {
                    assert(strip_from(t@, pos as int) == t@.skip(pos as int));
                    assert(t@.subrange(pos as int, n as int) =~= t@.skip(pos as int));
                    assert(out@ =~= without_comments(t@));
                }
                return out;
            },
        }
    }
}

proof fn lemma_word_run(t: Seq<char>, a: int, k: int)
    requires
        0 <= a,
        0 <= k,
        a + k <= t.len(),
        forall|m: int| a <= m < a + k ==> name_char(#[trigger] t[m]),
        a + k < t.len() ==> !name_char(t[a + k]),
    ensures
        word_run(t, a) == k,
    decreases k,
{
    if k > 0 {
        lemma_word_run(t, a + 1, k - 1);
    }
}

/// The number of word characters in a row from `a` on.
fn count_word_chars(t: &Vec<char>, a: usize) -> (r: usize)
    requires
        a <= t@.len(),
    ensures
        r == word_run(t@, a as int),
        a + r <= t@.len(),
{
    let n = t.len();
    let mut k: usize = a;
    while k < n && is_name_char(t[k])
        invariant
            n == t@.len(),
            a <= k <= n,
            forall|m: int| a <= m < k ==> name_char(#[trigger] t@[m]),
        decreases n - k,
    {
        k = k + 1;
    }
    proof {
        lemma_word_run(t@, a as int, (k - a) as int);
    }
    k - a
}

/// Where a tag `#[name]` starting at `a` ends.
fn find_tag_end(t: &Vec<char>, a: usize) -> (r: Option<usize>)
    requires
        a <= t@.len(),
    ensures
        r == match tag_end(t@, a as int) {
            Some(e) => Some(e as usize),
            None => None::<usize>,
        },
        r matches Some(e) ==> e <= t@.len(),
{
    let n = t.len();
    if !(a < n && a + 1 < n && t[a] == '#' && t[a + 1] == '[') {
        return None;
    }
    let w = count_word_chars(t, a + 2);
    if w > 0 && a + 2 + w < n && t[a + 2 + w] == ']' {
        Some(a + 3 + w)
    } else {
        None
    }
}

/// The marker that starts at `p`, as where its name starts and where it ends.
fn find_marker_at(t: &Vec<char>, p: usize) -> (r: Option<(usize, usize)>)
    requires
        p <= t@.len(),
    ensures
        r == match marker_at(t@, p as int) {
            Some((ns, e)) => Some((ns as usize, e as usize)),
            None => None::<(usize, usize)>,
        },
        r matches Some((ns, e)) ==> p + 2 <= ns < e <= t@.len(),
{
    let n = t.len();
    if p >= n {
        return None;
    }
    if !(p == 0 || t[p - 1] == '\n') {
        return None;
    }
    match find_tag_end(t, p) {
        Some(e) => Some((p + 2, e)),
        None => {
            if t[p] == '\n' {
                match find_tag_end(t, p + 1) {
                    Some(e) => Some((p + 3, e)),
                    None => None,
                }
            } else {
                None
            }
        },
    }
}

/// The first marker at or after `start`: where it starts, where its name
/// starts and where it ends.
fn find_next_marker(t: &Vec<char>, start: usize) -> (r: Option<(usize, usize, usize)>)
    requires
        start <= t@.len(),
    ensures
        match r {
            Some((p, ns, e)) => next_marker(t@, start as int) == Some(p as int)
                && marker_at(t@, p as int) == Some((ns as int, e as int))
                && start <= p < ns < e <= t@.len(),
            None => next_marker(t@, start as int) is None,
        },
{
    let n = t.len();
    let mut p: usize = start;
    while p < n
        invariant
            n == t@.len(),
            start <= p <= n,
            forall|k: int| start <= k < p ==> !#[trigger] found_at(t@, Sought::Marker, k),
        decreases n - p,
    {
        match find_marker_at(t, p) {
            Some((ns, e)) => {
                proof {
                    lemma_first_where_some(t@, start as int, Sought::Marker, p as int);
                }
                return Some((p, ns, e));
            },
            None => {},
        }
        p = p + 1;
    }
    proof {
        assert forall|k: int| start <= k implies !#[trigger] found_at(t@, Sought::Marker, k) by {
            if k >= p {
                assert(marker_at(t@, k) is None);
            }
        }
        lemma_first_where_none(t@, start as int, Sought::Marker);
    }
    None
}

/// The last region with the given name, as where its text starts and ends.
pub open spec fn last_named_range(rs: Seq<Region>, name: Seq<char>) -> Option<(int, int)>
    decreases rs.len(),
{
    if rs.len() == 0 {
        None
    } else if rs.last().0 == name {
        Some((rs.last().1, rs.last().2))
    } else {
        last_named_range(rs.drop_last(), name)
    }
}

proof fn lemma_last_named_bounds(rs: Seq<Region>, name: Seq<char>, n: int)
    requires
        forall|k: int| 0 <= k < rs.len() ==> 0 <= #[trigger] rs[k].1 <= rs[k].2 <= n,
    ensures
        last_named_range(rs, name) matches Some((a, b)) ==> 0 <= a <= b <= n,
    decreases rs.len(),
{
    if rs.len() > 0 && rs.last().0 != name {
        assert forall|k: int| 0 <= k < rs.drop_last().len() implies 0 <= #[trigger] rs.drop_last()[k].1 <= rs.drop_last()[k].2 <= n by {
            assert(rs.drop_last()[k] == rs[k]);
        }
        lemma_last_named_bounds(rs.drop_last(), name, n);
    }
}

/// One step through the regions: the region of the next marker, then the
/// regions after it.
proof fn lemma_regions_step(t: Seq<char>, s: int, p: int, ns: int, e: int, end: int)
    requires
        0 <= s <= p < ns < e <= t.len(),
        next_marker(t, s) == Some(p),
        marker_at(t, p) == Some((ns, e)),
        end == match next_marker(t, e) {
            Some(q) => q,
            None => t.len() as int,
        },
    ensures
        regions_from(t, s) == seq![(t.subrange(ns, e - 1), e, end)] + regions_from(t, e),
{
}

proof fn lemma_last_named(t: Seq<char>, rs: Seq<Region>, name: Seq<char>)
    ensures
        last_named(t, rs, name) == match last_named_range(rs, name) {
            Some((a, b)) => Some(t.subrange(a, b)),
            None => None,
        },
    decreases rs.len(),
{
    if rs.len() > 0 && rs.last().0 != name {
        lemma_last_named(t, rs.drop_last(), name);
    }
}

/// Splits a shader source file into the texts of its vertex and fragment
/// stages: drops the block comments, then takes the last region of
/// each name. Fails, saying which, when a stage has no region.
pub fn preprocess_sources(src: &str) -> (r: Result<(String, String), String>)
    ensures
        match (r, split_sources(src@)) {
            (Ok((v, f)), Ok((sv, sf))) => v@ == sv && f@ == sf,
            (Err(e), Err(se)) => e@ == se,
            _ => false,
        },
{
    let chars = to_chars(src);
    let t = strip_comments(&chars);
    let n = t.len();
    let ghost all = regions_from(t@, 0);
    let mut vertex: Option<(usize, usize)> = None;
    let mut fragment: Option<(usize, usize)> = None;
    let ghost mut done: Seq<Region> = Seq::empty();
    let ghost mut s: int = 0;
    let mut cur = find_next_marker(&t, 0);
    while cur.is_some()
        invariant
            n == t@.len(),
            t@ == without_comments(src@),
            all == regions_from(t@, 0),
            0 <= s <= n,
            all == done + regions_from(t@, s),
            match cur {
                Some((p, ns, e)) => next_marker(t@, s) == Some(p as int)
                    && marker_at(t@, p as int) == Some((ns as int, e as int))
                    && s <= p < ns < e <= n,
                None => next_marker(t@, s) is None,
            },
            vertex == match last_named_range(done, "vertex"@) {
                Some((a, b)) => Some((a as usize, b as usize)),
                None => None::<(usize, usize)>,
            },
            fragment == match last_named_range(done, "fragment"@) {
                Some((a, b)) => Some((a as usize, b as usize)),
                None => None::<(usize, usize)>,
            },
            forall|k: int| 0 <= k < done.len() ==> 0 <= #[trigger] done[k].1 <= done[k].2 <= n,
        decreases n - s,
    {
        let (p, ns, e) = match cur {
            Some(m) => m,
            None => { return Err(String::new()); },
        };
        let next = find_next_marker(&t, e);
        let end: usize = match next {
            Some((q, _, _)) => q,
            None => n,
        };
        let ghost region: Region = (t@.subrange(ns as int, e - 1), e as int, end as int);
        proof {
            lemma_regions_step(t@, s, p as int, ns as int, e as int, end as int);
            assert(done + regions_from(t@, s) =~= done.push(region) + regions_from(t@, e as int));
            assert(done.push(region).drop_last() =~= done);
            assert(end <= n) by {
                if next is Some {
                    assert(end < n);
                }
            }
        }
        if range_is(&t, ns, e - 1, "vertex") {
            vertex = Some((e, end));
        }
        if range_is(&t, ns, e - 1, "fragment") {
            fragment = Some((e, end));
        }
        proof {
            done = done.push(region);
            s = e as int;
        }
        cur = next;
    }
    proof {
        assert(regions_from(t@, s) =~= Seq::<Region>::empty());
        assert(done =~= all);
        lemma_last_named(t@, all, "vertex"@);
        lemma_last_named(t@, all, "fragment"@);
        lemma_last_named_bounds(all, "vertex"@, n as int);
        lemma_last_named_bounds(all, "fragment"@, n as int);
    }
    let v = match vertex {
        Some((a, b)) => string_of_range(&t, a, b),
        None => {
            let mut e = String::new();
            e.append("did not find vertex region in shader");
            return Err(e);
        },
    };
    let f = match fragment {
        Some((a, b)) => string_of_range(&t, a, b),
        None => {
            let mut e = String::new();
            e.append("did not find fragment region in shader");
            return Err(e);
        },
    };
    Ok((v, f))
}

} // verus!
