//! Link extraction: scans raw page text for media locators of the accepted
//! shape and returns one `Link` per distinct resource, in the order first
//! encountered.
//!
//! The accepted shape is the media-hosting URL grammar of the supported
//! origins: a protocol-relative host (`//i`, `//is`, `//img`, with an
//! optional numeric suffix) on one of the `4cdn`, `4chan` or `4plebs`
//! domains under `.org`, followed by one to three word path segments, up to
//! two further numeric segments, and a numeric file name with one of the
//! extensions `jpg`, `png`, `gif`, `webm`.

use vstd::prelude::*;
use vstd::string::StrSliceExecFns;

verus! {

/// A media link found in page text: the protocol-relative locator and the
/// bare file name it ends with.
#[derive(Debug)]
pub struct Link {
    pub url: String,
    pub name: String,
}

/// The (locator, file name) pair a `Link` stands for.
pub open spec fn link_pair(l: Link) -> (Seq<char>, Seq<char>) {
    (l.url@, l.name@)
}

/// The pairs a sequence of `Link`s stands for.
pub open spec fn link_pairs(ls: Seq<Link>) -> Seq<(Seq<char>, Seq<char>)> {
    ls.map_values(|l: Link| link_pair(l))
}

/// True for the ten ASCII decimal digits.
pub open spec fn is_digit_char(c: char) -> bool {
    '0' <= c && c <= '9'
}

/// True for ASCII word characters: letters, digits and underscore.
pub open spec fn is_word_char(c: char) -> bool {
    is_digit_char(c) || ('a' <= c && c <= 'z') || ('A' <= c && c <= 'Z') || c == '_'
}

/// Position just past the run of digit characters starting at `i`.
pub open spec fn digit_run_end(s: Seq<char>, i: int) -> int
    decreases s.len() - i,
{
    if 0 <= i < s.len() && is_digit_char(s[i]) {
        digit_run_end(s, i + 1)
    } else {
        i
    }
}

/// Position just past the run of word characters starting at `i`.
pub open spec fn word_run_end(s: Seq<char>, i: int) -> int
    decreases s.len() - i,
{
    if 0 <= i < s.len() && is_word_char(s[i]) {
        word_run_end(s, i + 1)
    } else {
        i
    }
}

/// Position after the optional host letters at `j`: `s` or `mg` when
/// present, nothing otherwise (the hosts `i`, `is`, `img`).
pub open spec fn host_letters_end(s: Seq<char>, j: int) -> int {
    if j < s.len() && s[j] == 's' {
        j + 1
    } else if j + 1 < s.len() && s[j] == 'm' && s[j + 1] == 'g' {
        j + 2
    } else {
        j
    }
}

/// If one of the accepted domain names starts at `j`, the position after it.
pub open spec fn domain_end(s: Seq<char>, j: int) -> Option<int> {
    if j + 4 <= s.len() && s[j] == '4' && s[j + 1] == 'c' && s[j + 2] == 'd' && s[j + 3] == 'n' {
        Some(j + 4)
    } else if j + 5 <= s.len() && s[j] == '4' && s[j + 1] == 'c' && s[j + 2] == 'h' && s[j + 3]
        == 'a' && s[j + 4] == 'n' {
        Some(j + 5)
    } else if j + 6 <= s.len() && s[j] == '4' && s[j + 1] == 'p' && s[j + 2] == 'l' && s[j + 3]
        == 'e' && s[j + 4] == 'b' && s[j + 5] == 's' {
        Some(j + 6)
    } else {
        None
    }
}

/// Does the literal `.org/` stand at `j`?
pub open spec fn dot_org_at(s: Seq<char>, j: int) -> bool {
    j + 5 <= s.len() && s[j] == '.' && s[j + 1] == 'o' && s[j + 2] == 'r' && s[j + 3] == 'g' && s[
        j + 4] == '/'
}

/// If the host prefix of a media link begins at `i` (from `//i` through
/// `.org/`), the position of the first path segment.
pub open spec fn path_start(s: Seq<char>, i: int) -> Option<int> {
    if 0 <= i && i + 3 <= s.len() && s[i] == '/' && s[i + 1] == '/' && s[i + 2] == 'i' {
        let j = host_letters_end(s, i + 3);
        let j2 = digit_run_end(s, j);
        if j2 < s.len() && s[j2] == '.' {
            match domain_end(s, j2 + 1) {
                Some(j4) => if dot_org_at(s, j4) {
                    Some(j4 + 5)
                } else {
                    None
                },
                None => None,
            }
        } else {
            None
        }
    } else {
        None
    }
}

/// If one of the accepted file extensions starts at `p`, the position
/// after it.
pub open spec fn ext_end(s: Seq<char>, p: int) -> Option<int> {
    if p + 3 <= s.len() && ((s[p] == 'j' && s[p + 1] == 'p' && s[p + 2] == 'g') || (s[p] == 'p'
        && s[p + 1] == 'n' && s[p + 2] == 'g') || (s[p] == 'g' && s[p + 1] == 'i' && s[p + 2]
        == 'f')) {
        Some(p + 3)
    } else if p + 4 <= s.len() && s[p] == 'w' && s[p + 1] == 'e' && s[p + 2] == 'b' && s[p + 3]
        == 'm' {
        Some(p + 4)
    } else {
        None
    }
}

/// From segment start `p`, with `k` path segments already consumed: the file
/// name start and the match end, if the path part of the grammar completes.
/// A segment is a nonempty word run closed by `/`; at most five may stand
/// before the file name, and any beyond the third must be purely numeric.
/// The file name itself is a nonempty digit run, a dot and an extension.
pub open spec fn segs_match(s: Seq<char>, p: int, k: int) -> Option<(int, int)>
    decreases s.len() - p,
{
    if 0 <= p <= s.len() {
        let q = word_run_end(s, p);
        if q < s.len() && p < q && s[q] == '/' {
            if k >= 5 {
                None
            } else if k >= 3 && digit_run_end(s, p) != q {
                None
            } else {
                segs_match(s, q + 1, k + 1)
            }
        } else {
            if k < 1 {
                None
            } else {
                let d = digit_run_end(s, p);
                if p < d && d < s.len() && s[d] == '.' {
                    match ext_end(s, d + 1) {
                        Some(e) => Some((p, e)),
                        None => None,
                    }
                } else {
                    None
                }
            }
        }
    } else {
        None
    }
}

/// If a media link of the accepted shape begins at `i`: the start of its
/// file name and the end of the whole locator.
pub open spec fn link_match(s: Seq<char>, i: int) -> Option<(int, int)> {
    match path_start(s, i) {
        Some(p) => segs_match(s, p, 0),
        None => None,
    }
}

/// Every match of the grammar in `s` from position `i` on, leftmost first
/// and non-overlapping: after a match, scanning resumes at its end. Each
/// element is the (locator, file name) pair of one raw match.
pub open spec fn scan_links(s: Seq<char>, i: int) -> Seq<(Seq<char>, Seq<char>)>
    decreases s.len() - i,
{
    if 0 <= i < s.len() {
        match link_match(s, i) {
            Some((ns, e)) => if i < e <= s.len() {
                seq![(s.subrange(i, e), s.subrange(ns, e))] + scan_links(s, e)
            } else {
                Seq::empty()
            },
            None => scan_links(s, i + 1),
        }
    } else {
        Seq::empty()
    }
}

/// The first occurrence of each pair, in order of first encounter.
pub open spec fn dedup_pairs(ps: Seq<(Seq<char>, Seq<char>)>) -> Seq<(Seq<char>, Seq<char>)>
    decreases ps.len(),
{
    if ps.len() == 0 {
        Seq::empty()
    } else {
        let prior = dedup_pairs(ps.drop_last());
        if prior.contains(ps.last()) {
            prior
        } else {
            prior.push(ps.last())
        }
    }
}

/// A word run never moves left and never passes the end of the text.
pub proof fn lemma_word_run_end_bounds(s: Seq<char>, i: int)
    requires
        0 <= i <= s.len(),
    ensures
        i <= word_run_end(s, i) <= s.len(),
    decreases s.len() - i,
{
    if i < s.len() && is_word_char(s[i]) {
        lemma_word_run_end_bounds(s, i + 1);
    }
}

/// A digit run never moves left and never passes the end of the text.
pub proof fn lemma_digit_run_end_bounds(s: Seq<char>, i: int)
    requires
        0 <= i <= s.len(),
    ensures
        i <= digit_run_end(s, i) <= s.len(),
    decreases s.len() - i,
{
    if i < s.len() && is_digit_char(s[i]) {
        lemma_digit_run_end_bounds(s, i + 1);
    }
}

/// A completed path part lies strictly inside the text after its start.
pub proof fn lemma_segs_match_bounds(s: Seq<char>, p: int, k: int)
    requires
        0 <= p <= s.len(),
        segs_match(s, p, k).is_some(),
    ensures
        p <= segs_match(s, p, k).unwrap().0,
        segs_match(s, p, k).unwrap().0 < segs_match(s, p, k).unwrap().1,
        segs_match(s, p, k).unwrap().1 <= s.len(),
    decreases s.len() - p,
{
    let q = word_run_end(s, p);
    lemma_word_run_end_bounds(s, p);
    if q < s.len() && p < q && s[q] == '/' {
        if k < 5 && !(k >= 3 && digit_run_end(s, p) != q) {
            lemma_segs_match_bounds(s, q + 1, k + 1);
        }
    }
}

/// A completed match ends strictly after its start, within the text, and
/// its file name lies inside the locator.
pub proof fn lemma_link_match_bounds(s: Seq<char>, i: int)
    requires
        link_match(s, i).is_some(),
    ensures
        i < link_match(s, i).unwrap().0,
        link_match(s, i).unwrap().0 < link_match(s, i).unwrap().1,
        link_match(s, i).unwrap().1 <= s.len(),
{
    let p = path_start(s, i).unwrap();
    let j = host_letters_end(s, i + 3);
    lemma_digit_run_end_bounds(s, j);
    lemma_segs_match_bounds(s, p, 0);
}

/// Membership in a sequence splits into the front part and the last element.
proof fn lemma_contains_split_last<A>(ps: Seq<A>, p: A)
    requires
        ps.len() > 0,
    ensures
        ps.contains(p) <==> (ps.drop_last().contains(p) || p == ps.last()),
{
    if ps.contains(p) {
        let m = choose|m: int| 0 <= m < ps.len() && ps[m] == p;
        if m < ps.len() - 1 {
            assert(ps.drop_last()[m] == p);
        }
    }
    if ps.drop_last().contains(p) {
        let m = choose|m: int| 0 <= m < ps.drop_last().len() && ps.drop_last()[m] == p;
        assert(ps[m] == p);
    }
    if p == ps.last() {
        assert(ps[ps.len() - 1] == p);
    }
}

/// The de-duplicated scan never repeats a pair, and holds exactly the
/// pairs of the raw scan: one entry per distinct resource, however often
/// the raw matching repeats one.
pub proof fn lemma_dedup_pairs_distinct(ps: Seq<(Seq<char>, Seq<char>)>)
    ensures
        forall|a: int, b: int|
            0 <= a < b < dedup_pairs(ps).len() ==> dedup_pairs(ps)[a] != dedup_pairs(ps)[b],
        forall|p: (Seq<char>, Seq<char>)| dedup_pairs(ps).contains(p) <==> ps.contains(p),
    decreases ps.len(),
{
    if ps.len() > 0 {
        lemma_dedup_pairs_distinct(ps.drop_last());
        let prior = dedup_pairs(ps.drop_last());
        let whole = dedup_pairs(ps);
        assert forall|p: (Seq<char>, Seq<char>)| whole.contains(p) <==> ps.contains(p) by {
            lemma_contains_split_last(ps, p);
            if !prior.contains(ps.last()) {
                lemma_contains_split_last(prior.push(ps.last()), p);
                assert(prior.push(ps.last()).drop_last() =~= prior);
            }
        }
        if !prior.contains(ps.last()) {
            assert forall|a: int, b: int| 0 <= a < b < whole.len() implies whole[a] != whole[b] by {
                if b == whole.len() - 1 {
                    assert(whole[a] == prior[a]);
                    assert(prior.contains(prior[a]));
                } else {
                    assert(whole[a] == prior[a] && whole[b] == prior[b]);
                }
            }
        }
    }
}

/// When no position of the text begins a link, the scan yields nothing.
proof fn lemma_scan_links_empty(s: Seq<char>, i: int)
    requires
        forall|k: int| 0 <= k < s.len() ==> (#[trigger] link_match(s, k)).is_none(),
    ensures
        scan_links(s, i) == Seq::<(Seq<char>, Seq<char>)>::empty(),
    decreases s.len() - i,
{
    if 0 <= i < s.len() {
        lemma_scan_links_empty(s, i + 1);
    }
}

/// A page without a single well-formed match extracts to the empty
/// sequence (and to no error: `get_image_links` is total).
pub proof fn lemma_extract_links_empty(s: Seq<char>)
    requires
        forall|k: int| 0 <= k < s.len() ==> (#[trigger] link_match(s, k)).is_none(),
    ensures
        dedup_pairs(scan_links(s, 0)) == Seq::<(Seq<char>, Seq<char>)>::empty(),
{
    lemma_scan_links_empty(s, 0);
}

/// Runtime check matching `is_digit_char`.
pub(crate) fn digit_char(c: char) -> (r: bool)
    ensures
        r == is_digit_char(c),
{
    '0' <= c && c <= '9'
}

/// Runtime check matching `is_word_char`.
fn word_char(c: char) -> (r: bool)
    ensures
        r == is_word_char(c),
{
    ('0' <= c && c <= '9') || ('a' <= c && c <= 'z') || ('A' <= c && c <= 'Z') || c == '_'
}

/// The characters of `s`, one slot each.
pub(crate) fn chars_of(s: &str) -> (v: Vec<char>)
    ensures
        v@ == s@,
{
    let n = s.unicode_len();
    let mut v: Vec<char> = Vec::new();
    let mut i: usize = 0;
    while i < n
        invariant
            i <= n,
            n == s@.len(),
            v@ == s@.subrange(0, i as int),
        decreases n - i,
    {
        v.push(s.get_char(i));
        proof {
            assert(s@.subrange(0, i + 1 as int) =~= s@.subrange(0, i as int).push(s@[i as int]));
        }
        i = i + 1;
    }
    proof {
        assert(s@.subrange(0, n as int) =~= s@);
    }
    v
}

/// Runtime scan matching `digit_run_end`.
fn digit_run_end_x(cs: &Vec<char>, from: usize) -> (q: usize)
    requires
        from <= cs.len(),
    ensures
        q == digit_run_end(cs@, from as int),
        from <= q <= cs.len(),
{
    let mut i = from;
    while i < cs.len() && digit_char(cs[i])
        invariant
            from <= i <= cs.len(),
            digit_run_end(cs@, from as int) == digit_run_end(cs@, i as int),
        decreases cs.len() - i,
    {
        proof {
            assert(digit_run_end(cs@, i as int) == digit_run_end(cs@, i + 1 as int));
        }
        i = i + 1;
    }
    i
}

/// Runtime scan matching `word_run_end`.
fn word_run_end_x(cs: &Vec<char>, from: usize) -> (q: usize)
    requires
        from <= cs.len(),
    ensures
        q == word_run_end(cs@, from as int),
        from <= q <= cs.len(),
{
    let mut i = from;
    while i < cs.len() && word_char(cs[i])
        invariant
            from <= i <= cs.len(),
            word_run_end(cs@, from as int) == word_run_end(cs@, i as int),
        decreases cs.len() - i,
    {
        proof {
            assert(word_run_end(cs@, i as int) == word_run_end(cs@, i + 1 as int));
        }
        i = i + 1;
    }
    i
}

/// If a media link of the accepted shape begins at `i` of `cs`: the file
/// name start and the end of the locator, mirroring `link_match`.
fn try_match(cs: &Vec<char>, i: usize) -> (r: Option<(usize, usize)>)
    requires
        i <= cs.len(),
    ensures
        match r {
            Some(pair) => link_match(cs@, i as int) == Some((pair.0 as int, pair.1 as int)),
            None => link_match(cs@, i as int).is_none(),
        },
{
    let n = cs.len();
    if !(n - i >= 3 && cs[i] == '/' && cs[i + 1] == '/' && cs[i + 2] == 'i') {
        return None;
    }
    let j: usize = if n - i >= 4 && cs[i + 3] == 's' {
        i + 4
    } else if n - i >= 5 && cs[i + 3] == 'm' && cs[i + 4] == 'g' {
        i + 5
    } else {
        i + 3
    };
    proof {
        assert(j == host_letters_end(cs@, i + 3 as int));
    }
    let j2 = digit_run_end_x(cs, j);
    if !(j2 < n && cs[j2] == '.') {
        return None;
    }
    let j3 = j2 + 1;
    let j4opt: Option<usize> = if n - j3 >= 4 && cs[j3] == '4' && cs[j3 + 1] == 'c' && cs[j3 + 2]
        == 'd' && cs[j3 + 3] == 'n' {
        Some(j3 + 4)
    } else if n - j3 >= 5 && cs[j3] == '4' && cs[j3 + 1] == 'c' && cs[j3 + 2] == 'h' && cs[j3 + 3]
        == 'a' && cs[j3 + 4] == 'n' {
        Some(j3 + 5)
    } else if n - j3 >= 6 && cs[j3] == '4' && cs[j3 + 1] == 'p' && cs[j3 + 2] == 'l' && cs[j3 + 3]
        == 'e' && cs[j3 + 4] == 'b' && cs[j3 + 5] == 's' {
        Some(j3 + 6)
    } else {
        None
    };
    let j4 = match j4opt {
        Some(x) => x,
        None => {
            proof {
                assert(domain_end(cs@, j3 as int).is_none());
            }
            return None;
        },
    };
    proof {
        assert(domain_end(cs@, j3 as int) == Some(j4 as int));
    }
    if !(n - j4 >= 5 && cs[j4] == '.' && cs[j4 + 1] == 'o' && cs[j4 + 2] == 'r' && cs[j4 + 3]
        == 'g' && cs[j4 + 4] == '/') {
        return None;
    }
    let p = j4 + 5;
    proof {
        assert(path_start(cs@, i as int) == Some(p as int));
    }
    let mut sp = p;
    let mut k: usize = 0;
    loop
        invariant
            sp <= n,
            n == cs.len(),
            k <= 5,
            link_match(cs@, i as int) == segs_match(cs@, sp as int, k as int),
        decreases n - sp,
    {
        let q = word_run_end_x(cs, sp);
        if q < n && sp < q && cs[q] == '/' {
            if k >= 5 {
                return None;
            }
            if k >= 3 {
                let dq = digit_run_end_x(cs, sp);
                if dq != q {
                    return None;
                }
            }
            proof {
                assert(segs_match(cs@, sp as int, k as int) == segs_match(
                    cs@,
                    q + 1 as int,
                    k + 1 as int,
                ));
            }
            sp = q + 1;
            k = k + 1;
        } else {
            if k < 1 {
                return None;
            }
            let d = digit_run_end_x(cs, sp);
            if !(sp < d && d < n && cs[d] == '.') {
                return None;
            }
            let e3 = d + 1;
            let eopt: Option<usize> = if n - e3 >= 3 && ((cs[e3] == 'j' && cs[e3 + 1] == 'p' && cs[
                e3 + 2] == 'g') || (cs[e3] == 'p' && cs[e3 + 1] == 'n' && cs[e3 + 2] == 'g') || (
            cs[e3] == 'g' && cs[e3 + 1] == 'i' && cs[e3 + 2] == 'f')) {
                Some(e3 + 3)
            } else if n - e3 >= 4 && cs[e3] == 'w' && cs[e3 + 1] == 'e' && cs[e3 + 2] == 'b' && cs[
                e3 + 3] == 'm' {
                Some(e3 + 4)
            } else {
                None
            };
            match eopt {
                Some(e) => {
                    proof {
                        assert(ext_end(cs@, e3 as int) == Some(e as int));
                    }
                    return Some((sp, e));
                },
                None => {
                    proof {
                        assert(ext_end(cs@, e3 as int).is_none());
                    }
                    return None;
                },
            }
        }
    }
}

/// Is the (locator, name) pair already among `ls`?
fn contains_pair(ls: &Vec<Link>, url: &String, name: &String) -> (r: bool)
    ensures
        r == link_pairs(ls@).contains((url@, name@)),
{
    let mut k: usize = 0;
    while k < ls.len()
        invariant
            k <= ls.len(),
            forall|m: int| 0 <= m < k ==> link_pairs(ls@)[m] != (url@, name@),
        decreases ls.len() - k,
    {
        let lk = &ls[k];
        if lk.url.eq(url) && lk.name.eq(name) {
            proof {
                assert(link_pairs(ls@)[k as int] == (url@, name@));
            }
            return true;
        }
        k = k + 1;
    }
    proof {
        if link_pairs(ls@).contains((url@, name@)) {
            let m = choose|m: int|
                0 <= m < link_pairs(ls@).len() && link_pairs(ls@)[m] == (url@, name@);
            assert(false);
        }
    }
    false
}

/// Keeps the first occurrence of each (locator, name) pair.
fn dedup_links(raw: Vec<Link>) -> (links: Vec<Link>)
    ensures
        link_pairs(links@) == dedup_pairs(link_pairs(raw@)),
{
    let mut links: Vec<Link> = Vec::new();
    let mut k: usize = 0;
    while k < raw.len()
        invariant
            k <= raw.len(),
            link_pairs(links@) == dedup_pairs(link_pairs(raw@).take(k as int)),
        decreases raw.len() - k,
    {
        let ghost links0 = links@;
        let rk = &raw[k];
        let dup = contains_pair(&links, &rk.url, &rk.name);
        if !dup {
            let url = rk.url.clone();
            let name = rk.name.clone();
            links.push(Link { url, name });
        }
        proof {
            let ps = link_pairs(raw@);
            assert(ps.take(k + 1 as int).drop_last() =~= ps.take(k as int));
            assert(ps.take(k + 1 as int).last() == ps[k as int]);
            if !dup {
                assert(link_pairs(links@) =~= link_pairs(links0).push(ps[k as int]));
            }
        }
        k = k + 1;
    }
    proof {
        assert(link_pairs(raw@).take(raw@.len() as int) =~= link_pairs(raw@));
    }
    links
}

/// Returns the links from a page: one `Link` per distinct media resource,
/// in the order first encountered, however often the raw scan repeats a
/// resource. Any text is acceptable; no match yields an empty vector.
pub fn get_image_links(page_content: &str) -> (links: Vec<Link>)
    ensures
        link_pairs(links@) == dedup_pairs(scan_links(page_content@, 0)),
{
    let cs = chars_of(page_content);
    let n = cs.len();
    let mut raw: Vec<Link> = Vec::new();
    let mut i: usize = 0;
    while i < n
        invariant
            i <= n,
            n == cs.len(),
            cs@ == page_content@,
            scan_links(cs@, 0) == link_pairs(raw@) + scan_links(cs@, i as int),
        decreases n - i,
    {
        let ghost raw0 = raw@;
        match try_match(&cs, i) {
            Some((ns, e)) => {
                proof {
                    lemma_link_match_bounds(cs@, i as int);
                }
                let url = page_content.substring_char(i, e).to_owned();
                let name = page_content.substring_char(ns, e).to_owned();
                raw.push(Link { url, name });
                proof {
                    assert(scan_links(cs@, i as int) == seq![
                        (cs@.subrange(i as int, e as int), cs@.subrange(ns as int, e as int)),
                    ] + scan_links(cs@, e as int));
                    assert(link_pairs(raw@) =~= link_pairs(raw0).push(
                        (cs@.subrange(i as int, e as int), cs@.subrange(ns as int, e as int)),
                    ));
                    assert(link_pairs(raw0) + scan_links(cs@, i as int) =~= link_pairs(raw@)
                        + scan_links(cs@, e as int));
                }
                i = e;
            },
            None => {
                proof {
                    assert(scan_links(cs@, i as int) == scan_links(cs@, i + 1 as int));
                }
                i = i + 1;
            },
        }
    }
    proof {
        assert(scan_links(cs@, n as int) =~= Seq::<(Seq<char>, Seq<char>)>::empty());
        assert(link_pairs(raw@) + scan_links(cs@, n as int) =~= link_pairs(raw@));
    }
    dedup_links(raw)
}

} // verus!
