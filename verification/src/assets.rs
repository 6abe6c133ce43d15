//! Authored image / audio names → candidate file paths.
//!
//! Extracted visual-novel games author `scene bgn1` / `play music spark` /
//! `image anima1 = Movie(...)`. The player turns those names into files
//! under `images/`, `images/animations/` and `audio/`. The dest tree
//! (cooked / installed copy) is probed before the extract tree. This module
//! computes the candidates in probe order; the host checks which exist.

use vstd::prelude::*;
use crate::str_map::StrMap;
use crate::text::{chars_of, contains_spec, lower_seq, occurs_at, starts_with_spec, trim_spec, trim_start_spec, skip_ws};

verus! {

/// Default extract root used when the environment names none.
pub const DEFAULT_EXTRACT: &'static str = "/home/johndpope/Desktop/HarmonyHaven-extracted";

/// Image / movie extensions probed for a bare visual name, in order.
pub open spec fn visual_exts() -> Seq<Seq<char>> {
    seq!["jpg"@, "png"@, "webp"@, "webm"@]
}

/// Audio extensions probed for a bare audio name, in order.
pub open spec fn audio_exts() -> Seq<Seq<char>> {
    seq!["mp3"@, "wav"@, "ogg"@, "flac"@, "opus"@]
}

/// Image / movie extensions probed for a bare visual name, in order.
pub fn visual_ext_list() -> (r: Vec<&'static str>)
    ensures
        r@.map_values(|e: &'static str| e@) == visual_exts(),
{
    let r = vec!["jpg", "png", "webp", "webm"];
    assert(r@.map_values(|e: &'static str| e@) =~= visual_exts());
    r
}

/// Audio extensions probed for a bare audio name, in order.
pub fn audio_ext_list() -> (r: Vec<&'static str>)
    ensures
        r@.map_values(|e: &'static str| e@) == audio_exts(),
{
    let r = vec!["mp3", "wav", "ogg", "flac", "opus"];
    assert(r@.map_values(|e: &'static str| e@) =~= audio_exts());
    r
}

// ── Text helpers ─────────────────────────────────────────────────────────

/// First index at or after `i` where `p` occurs in `s`.
pub open spec fn find_from(s: Seq<char>, p: Seq<char>, i: int) -> Option<int>
    decreases s.len() + 1 - i,
{
    if i < 0 || i + p.len() > s.len() {
        None
    } else if occurs_at(s, p, i) {
        Some(i)
    } else {
        find_from(s, p, i + 1)
    }
}

/// First index where `p` occurs in `s` (`str::find`).
pub(crate) fn find_first(s: &[char], p: &[char]) -> (r: Option<usize>)
    ensures
        match r {
            Some(i) => find_from(s@, p@, 0) == Some(i as int),
            None => find_from(s@, p@, 0) is None,
        },
{
    if p.len() > s.len() {
        return None;
    }
    let n = s.len() - p.len();
    let mut i: usize = 0;
    while i < n
        invariant
            n == s.len() - p.len(),
            i <= n,
            find_from(s@, p@, 0) == find_from(s@, p@, i as int),
        decreases n - i,
    {
        if crate::text::matches_at(s, p, i) {
            return Some(i);
        }
        i = i + 1;
    }
    if crate::text::matches_at(s, p, n) {
        return Some(n);
    }
    assert(find_from(s@, p@, n + 1) is None);
    None
}

/// A found occurrence is an occurrence, at or after the start.
pub(crate) proof fn lemma_find_from(s: Seq<char>, p: Seq<char>, i: int)
    ensures
        find_from(s, p, i) matches Some(k) ==> i <= k && occurs_at(s, p, k),
    decreases s.len() + 1 - i,
{
    if 0 <= i && i + p.len() <= s.len() && !occurs_at(s, p, i) {
        lemma_find_from(s, p, i + 1);
    }
}

/// `cs[lo..hi]`.
pub(crate) fn slice_of(cs: &[char], lo: usize, hi: usize) -> (r: Vec<char>)
    requires
        lo <= hi <= cs@.len(),
    ensures
        r@ == cs@.subrange(lo as int, hi as int),
{
    let mut out: Vec<char> = Vec::new();
    let mut i = lo;
    while i < hi
        invariant
            lo <= i <= hi <= cs@.len(),
            out@ == cs@.subrange(lo as int, i as int),
        decreases hi - i,
    {
        out.push(cs[i]);
        i = i + 1;
        assert(out@ =~= cs@.subrange(lo as int, i as int));
    }
    out
}

/// `str::trim_start` on characters.
fn trim_start_vec(cs: &[char]) -> (r: Vec<char>)
    ensures
        r@ == trim_start_spec(cs@),
{
    let (lo, _) = crate::text::trim_bounds(cs);
    slice_of(cs, lo, cs.len())
}

/// String of a character vector.
fn string_of(cs: &Vec<char>) -> (r: String)
    ensures
        r@ == cs@,
{
    crate::text::string_from(cs.as_slice())
}

/// `a + b + c` as a string.
fn cat3(a: &str, b: &str, c: &str) -> (r: String)
    ensures
        r@ == a@ + b@ + c@,
{
    let ab = crate::text::concat_str(a, b);
    crate::text::concat_str(ab.as_str(), c)
}

// ── Movie() declarations ─────────────────────────────────────────────────

/// The quoted `play=` path of a `Movie(...)` right-hand side.
pub open spec fn play_path_spec(rhs: Seq<char>) -> Option<Seq<char>> {
    match find_from(rhs, "play"@, 0) {
        None => None,
        Some(p) => {
            let a = trim_start_spec(rhs.subrange(p + 4, rhs.len() as int));
            if a.len() == 0 || a[0] != '=' {
                None
            } else {
                let b = trim_start_spec(a.subrange(1, a.len() as int));
                if b.len() == 0 || (b[0] != '"' && b[0] != '\'') {
                    None
                } else {
                    let body = b.subrange(1, b.len() as int);
                    match find_from(body, seq![b[0]], 0) {
                        None => None,
                        Some(e) => Some(body.subrange(0, e)),
                    }
                }
            }
        },
    }
}

/// A `image NAME = Movie(play="PATH")` line, as `(NAME, PATH)`.
pub open spec fn parse_line_spec(l: Seq<char>) -> Option<(Seq<char>, Seq<char>)> {
    let t = trim_spec(l);
    if t.len() == 0 || t[0] == '#' || !starts_with_spec(t, "image"@) {
        None
    } else {
        let rest = trim_start_spec(t.subrange(5, t.len() as int));
        match find_from(rest, "="@, 0) {
            None => None,
            Some(eq) => {
                let name = trim_spec(rest.subrange(0, eq));
                let rhs = trim_spec(rest.subrange(eq + 1, rest.len() as int));
                if name.len() == 0 || !starts_with_spec(rhs, "Movie"@) {
                    None
                } else {
                    match play_path_spec(rhs) {
                        Some(p) => Some((name, p)),
                        None => None,
                    }
                }
            }
        }
    }
}

/// The pieces of `s` between newlines (one more than there are newlines).
pub open spec fn split_nl(s: Seq<char>) -> Seq<Seq<char>>
    decreases s.len(),
{
    if s.len() == 0 {
        seq![Seq::empty()]
    } else {
        let prev = split_nl(s.drop_last());
        if s.last() == '\n' {
            prev.push(Seq::empty())
        } else {
            prev.update(prev.len() - 1, prev.last().push(s.last()))
        }
    }
}

/// The declarations found in a list of lines, in order.
pub open spec fn parse_lines(ls: Seq<Seq<char>>) -> Seq<(Seq<char>, Seq<char>)>
    decreases ls.len(),
{
    if ls.len() == 0 {
        Seq::empty()
    } else {
        parse_lines(ls.drop_last()) + match parse_line_spec(ls.last()) {
            Some(d) => seq![d],
            None => Seq::empty(),
        }
    }
}

/// `m` with each declaration of `ds` inserted in turn, so that a later
/// declaration of a name overrides an earlier one.
pub open spec fn insert_decls(m: Map<Seq<char>, Seq<char>>, ds: Seq<(Seq<char>, Seq<char>)>) -> Map<
    Seq<char>,
    Seq<char>,
>
    decreases ds.len(),
{
    if ds.len() == 0 {
        m
    } else {
        insert_decls(m, ds.drop_last()).insert(ds.last().0, ds.last().1)
    }
}

/// View of a list of string pairs.
pub open spec fn pairs_view(v: Seq<(String, String)>) -> Seq<(Seq<char>, Seq<char>)> {
    v.map_values(|p: (String, String)| (p.0@, p.1@))
}

proof fn lemma_split_nonempty(s: Seq<char>)
    ensures
        split_nl(s).len() >= 1,
    decreases s.len(),
{
    if s.len() > 0 {
        lemma_split_nonempty(s.drop_last());
    }
}

/// The quoted `play=` path of a `Movie(...)` right-hand side.
pub fn movie_play_path(rhs: &Vec<char>) -> (r: Option<Vec<char>>)
    ensures
        match r {
            Some(p) => play_path_spec(rhs@) == Some(p@),
            None => play_path_spec(rhs@) is None,
        },
{
    let play = chars_of("play");
    proof {
        reveal_strlit("play");
    }
    let p = match find_first(rhs.as_slice(), play.as_slice()) {
        Some(p) => p,
        None => return None,
    };
    proof {
        lemma_find_from(rhs@, play@, 0);
        assert(play@ == "play"@);
        assert(play@.len() == 4);
        assert(occurs_at(rhs@, play@, p as int));
        assert(rhs@.len() == rhs.len());
        assert(p + 4 <= rhs.len());
    }
    let tail = slice_of(rhs.as_slice(), p + 4, rhs.len());
    let a = trim_start_vec(tail.as_slice());
    if a.len() == 0 || a[0] != '=' {
        return None;
    }
    let a1 = slice_of(a.as_slice(), 1, a.len());
    let b = trim_start_vec(a1.as_slice());
    if b.len() == 0 || (b[0] != '"' && b[0] != '\'') {
        return None;
    }
    let q = b[0];
    let body = slice_of(b.as_slice(), 1, b.len());
    let qs: Vec<char> = vec![q];
    assert(qs@ =~= seq![b@[0]]);
    match find_first(body.as_slice(), qs.as_slice()) {
        None => None,
        Some(e) => {
            proof {
                lemma_find_from(body@, qs@, 0);
            }
            Some(slice_of(body.as_slice(), 0, e))
        },
    }
}

/// One line of `visuals.rpy`, if it declares a movie.
fn parse_line(l: &Vec<char>) -> (r: Option<(String, String)>)
    ensures
        match r {
            Some(d) => parse_line_spec(l@) == Some((d.0@, d.1@)),
            None => parse_line_spec(l@) is None,
        },
{
    let t = crate::text::trim_chars(l.as_slice());
    let image = chars_of("image");
    proof {
        reveal_strlit("image");
    }
    if t.len() == 0 || t[0] == '#' || !crate::text::starts_with(t.as_slice(), image.as_slice()) {
        return None;
    }
    let t5 = slice_of(t.as_slice(), 5, t.len());
    let rest = trim_start_vec(t5.as_slice());
    let eqs = chars_of("=");
    proof {
        reveal_strlit("=");
    }
    let eq = match find_first(rest.as_slice(), eqs.as_slice()) {
        Some(e) => e,
        None => return None,
    };
    proof {
        lemma_find_from(rest@, eqs@, 0);
        assert(eqs@.len() == 1);
        assert(occurs_at(rest@, eqs@, eq as int));
        assert(eq < rest.len());
    }
    let name_raw = slice_of(rest.as_slice(), 0, eq);
    let name = crate::text::trim_chars(name_raw.as_slice());
    let rhs_raw = slice_of(rest.as_slice(), eq + 1, rest.len());
    let rhs = crate::text::trim_chars(rhs_raw.as_slice());
    let movie = chars_of("Movie");
    proof {
        reveal_strlit("Movie");
    }
    if name.len() == 0 || !crate::text::starts_with(rhs.as_slice(), movie.as_slice()) {
        return None;
    }
    match movie_play_path(&rhs) {
        Some(p) => Some((string_of(&name), string_of(&p))),
        None => None,
    }
}

/// Parse `image NAME = Movie(play="images/animations/NAME.webm")` lines
/// (spaces around `=` optional; blank and `#` comment lines skipped).
pub fn parse_visuals_rpy(src: &str) -> (r: Vec<(String, String)>)
    ensures
        pairs_view(r@) == parse_lines(split_nl(src@)),
{
    let cs = chars_of(src);
    let mut out: Vec<(String, String)> = Vec::new();
    let mut cur: Vec<char> = Vec::new();
    let mut i: usize = 0;
    proof {
        assert(cs@.take(0) =~= Seq::<char>::empty());
    }
    while i < cs.len()
        invariant
            i <= cs@.len(),
            cs@ == src@,
            split_nl(cs@.take(i as int)).len() >= 1,
            cur@ == split_nl(cs@.take(i as int)).last(),
            pairs_view(out@) == parse_lines(split_nl(cs@.take(i as int)).drop_last()),
        decreases cs.len() - i,
    {
        let c = cs[i];
        let ghost before = cs@.take(i as int);
        assert(cs@.take(i + 1).drop_last() =~= before);
        assert(cs@.take(i + 1).last() == c);
        proof {
            lemma_split_nonempty(before);
        }
        if c == '\n' {
            let ghost o0 = out@;
            match parse_line(&cur) {
                Some(d) => {
                    out.push(d);
                    assert(pairs_view(out@) =~= pairs_view(o0).push((d.0@, d.1@)));
                },
                None => {},
            }
            cur = Vec::new();
            proof {
                let ls = split_nl(before);
                assert(split_nl(cs@.take(i + 1)) == ls.push(Seq::empty()));
                assert(split_nl(cs@.take(i + 1)).drop_last() =~= ls);
                assert(ls =~= ls.drop_last().push(ls.last()));
            }
            assert(cur@ =~= Seq::<char>::empty());
        } else {
            cur.push(c);
            proof {
                let ls = split_nl(before);
                assert(split_nl(cs@.take(i + 1)) == ls.update(ls.len() - 1, ls.last().push(c)));
                assert(split_nl(cs@.take(i + 1)).drop_last() =~= ls.drop_last());
            }
        }
        i = i + 1;
        proof {
            lemma_split_nonempty(cs@.take(i as int));
        }
    }
    let ghost ls = split_nl(cs@.take(i as int));
    let ghost o0 = out@;
    match parse_line(&cur) {
        Some(d) => {
            out.push(d);
            assert(pairs_view(out@) =~= pairs_view(o0).push((d.0@, d.1@)));
        },
        None => {},
    }
    proof {
        assert(cs@.take(cs@.len() as int) =~= cs@);
        assert(ls =~= ls.drop_last().push(ls.last()));
    }
    out
}

// ── Paths ────────────────────────────────────────────────────────────────

/// `Path::extension` of a path given as text (the part of the file name
/// after its last `.`, when there is one that does not start the name).
pub uninterp spec fn std_path_extension(p: Seq<char>) -> Option<Seq<char>>;

/// `Path::file_stem` of a path given as text (the file name without its
/// extension).
pub uninterp spec fn std_path_file_stem(p: Seq<char>) -> Option<Seq<char>>;

/// View of an optional string.
pub open spec fn opt_str(o: Option<String>) -> Option<Seq<char>> {
    match o {
        Some(s) => Some(s@),
        None => None,
    }
}

/// `Path::extension` (as UTF-8) of `p`.
#[verifier::external_body]
fn path_extension(p: &str) -> (r: Option<String>)
    ensures
        opt_str(r) == std_path_extension(p@),
{
    std::path::Path::new(p).extension().and_then(|e| e.to_str()).map(|e| e.to_string())
}

/// `Path::file_stem` (as UTF-8) of `p`.
#[verifier::external_body]
fn path_file_stem(p: &str) -> (r: Option<String>)
    ensures
        opt_str(r) == std_path_file_stem(p@),
{
    std::path::Path::new(p).file_stem().and_then(|e| e.to_str()).map(|e| e.to_string())
}

/// `str::eq_ignore_ascii_case`.
pub open spec fn eq_ignore_case(a: Seq<char>, b: Seq<char>) -> bool {
    lower_seq(a) == lower_seq(b)
}

fn eq_ignore_ascii_case(a: &str, b: &str) -> (r: bool)
    ensures
        r == eq_ignore_case(a@, b@),
{
    let la = crate::text::lower_chars(chars_of(a).as_slice());
    let lb = crate::text::lower_chars(chars_of(b).as_slice());
    crate::text::chars_eq(la.as_slice(), lb.as_slice())
}

/// Whether `name`'s extension is one of `exts`, ignoring ASCII case.
pub open spec fn has_known_ext_spec(name: Seq<char>, exts: Seq<Seq<char>>) -> bool {
    match std_path_extension(name) {
        Some(e) => exists|k: int| 0 <= k < exts.len() && eq_ignore_case(e, #[trigger] exts[k]),
        None => false,
    }
}

/// Whether `name`'s extension is one of `exts`, ignoring ASCII case.
pub fn has_known_ext(name: &str, exts: &Vec<&'static str>) -> (r: bool)
    ensures
        r == has_known_ext_spec(name@, exts@.map_values(|e: &'static str| e@)),
{
    let ghost ev = exts@.map_values(|e: &'static str| e@);
    match path_extension(name) {
        None => false,
        Some(e) => {
            let mut k: usize = 0;
            while k < exts.len()
                invariant
                    k <= exts@.len(),
                    ev == exts@.map_values(|e: &'static str| e@),
                    std_path_extension(name@) == Some(e@),
                    forall|j: int| 0 <= j < k ==> !eq_ignore_case(e@, #[trigger] ev[j]),
                decreases exts.len() - k,
            {
                if eq_ignore_ascii_case(e.as_str(), exts[k]) {
                    assert(eq_ignore_case(e@, ev[k as int]));
                    return true;
                }
                k = k + 1;
            }
            false
        },
    }
}

/// `name` without a known extension (its file stem), else unchanged.
pub open spec fn strip_known_ext_spec(name: Seq<char>, exts: Seq<Seq<char>>) -> Seq<char> {
    if has_known_ext_spec(name, exts) {
        match std_path_file_stem(name) {
            Some(s) => s,
            None => name,
        }
    } else {
        name
    }
}

/// `name` without a known extension (its file stem), else unchanged.
pub fn strip_known_ext(name: &str, exts: &Vec<&'static str>) -> (r: String)
    ensures
        r@ == strip_known_ext_spec(name@, exts@.map_values(|e: &'static str| e@)),
{
    if has_known_ext(name, exts) {
        match path_file_stem(name) {
            Some(s) => s,
            None => name.to_string(),
        }
    } else {
        name.to_string()
    }
}

/// An authored name that is already a path: it has a separator or an
/// extension.
pub open spec fn looks_like_path_spec(name: Seq<char>) -> bool {
    name.contains('/') || name.contains('\\') || std_path_extension(name) is Some
}

/// Whether an authored name is already a path.
pub fn looks_like_path(name: &str) -> (r: bool)
    ensures
        r == looks_like_path_spec(name@),
{
    let cs = chars_of(name);
    crate::text::has_char(cs.as_slice(), '/') || crate::text::has_char(cs.as_slice(), '\\')
        || path_extension(name).is_some()
}

/// A name that names audio: it mentions `audio/` (any ASCII case) or has
/// an audio extension.
pub open spec fn is_audio_name_spec(name: Seq<char>) -> bool {
    contains_spec(lower_seq(name), "audio/"@) || has_known_ext_spec(name, audio_exts())
}

/// Whether an authored name names audio.
pub fn is_audio_name(name: &str) -> (r: bool)
    ensures
        r == is_audio_name_spec(name@),
{
    let l = crate::text::lower_chars(chars_of(name).as_slice());
    let a = chars_of("audio/");
    crate::text::contains(l.as_slice(), a.as_slice()) || has_known_ext(name, &audio_ext_list())
}

/// A path whose extension is `webm` or `mp4` (any ASCII case).
pub open spec fn is_movie_path_spec(p: Seq<char>) -> bool {
    match std_path_extension(p) {
        Some(e) => eq_ignore_case(e, "webm"@) || eq_ignore_case(e, "mp4"@),
        None => false,
    }
}

/// True when a resolved path should be presented as a looping movie.
pub fn is_movie_path(path: &str) -> (r: bool)
    ensures
        r == is_movie_path_spec(path@),
{
    match path_extension(path) {
        Some(e) => eq_ignore_ascii_case(e.as_str(), "webm") || eq_ignore_ascii_case(e.as_str(), "mp4"),
        None => false,
    }
}

/// The part of `s` after its last `/` (all of `s` when it has none).
pub open spec fn last_segment(s: Seq<char>) -> Seq<char>
    decreases s.len(),
{
    if s.len() == 0 {
        s
    } else if s.last() == '/' {
        Seq::empty()
    } else {
        last_segment(s.drop_last()).push(s.last())
    }
}

fn last_segment_of(s: &str) -> (r: String)
    ensures
        r@ == last_segment(s@),
{
    let cs = chars_of(s);
    let mut start: usize = 0;
    let mut i: usize = 0;
    while i < cs.len()
        invariant
            i <= cs@.len(),
            start <= i,
            last_segment(cs@.take(i as int)) == cs@.subrange(start as int, i as int),
        decreases cs.len() - i,
    {
        assert(cs@.take(i + 1).drop_last() =~= cs@.take(i as int));
        if cs[i] == '/' {
            start = i + 1;
            assert(cs@.subrange(start as int, i + 1) =~= Seq::<char>::empty());
        } else {
            assert(cs@.subrange(start as int, i + 1) =~= cs@.subrange(start as int, i as int).push(cs@[i as int]));
        }
        i = i + 1;
    }
    assert(cs@.take(cs@.len() as int) =~= cs@);
    crate::text::string_from_range(cs.as_slice(), start, cs.len())
}

// ── Resolver ─────────────────────────────────────────────────────────────

/// `prefix + stem + "." + ext` for each extension, in order.
pub open spec fn with_exts(prefix: Seq<char>, stem: Seq<char>, exts: Seq<Seq<char>>) -> Seq<Seq<char>> {
    Seq::new(exts.len(), |k: int| prefix + stem + "."@ + exts[k])
}

/// Relative candidates for a visual name, in probe order: its `Movie()`
/// path, the name itself when it is a path, then
/// `images/<stem>.<ext>` and `images/animations/<stem>.<ext>`.
pub open spec fn visual_rels(movies: Map<Seq<char>, String>, name: Seq<char>) -> Seq<Seq<char>> {
    let n = trim_spec(name);
    if n.len() == 0 {
        Seq::empty()
    } else {
        let stem = strip_known_ext_spec(n, visual_exts());
        (if movies.contains_key(n) {
            seq![movies[n]@]
        } else {
            Seq::empty()
        }) + (if looks_like_path_spec(n) {
            seq![n]
        } else {
            Seq::empty()
        }) + with_exts("images/"@, stem, visual_exts()) + with_exts(
            "images/animations/"@,
            stem,
            visual_exts(),
        )
    }
}

/// Relative candidates for an audio name, in probe order: the name itself
/// when it is a path, `audio/<file>` when the file has an audio extension,
/// then `audio/<stem>.<ext>`.
pub open spec fn audio_rels(name: Seq<char>) -> Seq<Seq<char>> {
    let n = trim_spec(name);
    if n.len() == 0 {
        Seq::empty()
    } else {
        let file = last_segment(n);
        let stem = strip_known_ext_spec(file, audio_exts());
        (if looks_like_path_spec(n) {
            seq![n]
        } else {
            Seq::empty()
        }) + (if has_known_ext_spec(file, audio_exts()) {
            seq!["audio/"@ + file]
        } else {
            Seq::empty()
        }) + with_exts("audio/"@, stem, audio_exts())
    }
}

/// Each relative candidate under the dest root, then under the extract root.
pub open spec fn probes(dest: Seq<char>, extract: Seq<char>, rels: Seq<Seq<char>>) -> Seq<Seq<char>>
    decreases rels.len(),
{
    if rels.len() == 0 {
        Seq::empty()
    } else {
        probes(dest, extract, rels.drop_last()) + seq![
            crate::text::std_path_join(dest, rels.last()),
            crate::text::std_path_join(extract, rels.last()),
        ]
    }
}

/// Dest + extract roots plus the `Movie()` declarations.
pub struct AssetResolver {
    dest: String,
    extract: String,
    movies: StrMap<String>,
}

impl AssetResolver {
    /// Resolver over two roots, with no `Movie()` declarations yet.
    pub fn new(dest: &str, extract: &str) -> (r: AssetResolver)
        ensures
            r.dest_view() == dest@,
            r.extract_view() == extract@,
            r.movies_view() == Map::<Seq<char>, String>::empty(),
    {
        AssetResolver { dest: dest.to_string(), extract: extract.to_string(), movies: StrMap::new() }
    }

    /// Resolver over two roots with the `Movie()` declarations of the
    /// extract root's `visuals.rpy`, then the dest root's (so a dest entry
    /// overrides an extract entry of the same name). A script that could
    /// not be read is `None` and contributes nothing.
    pub fn with_scripts(dest: &str, extract: &str, extract_rpy: Option<&str>, dest_rpy: Option<&str>) -> (r:
        AssetResolver)
        ensures
            r.dest_view() == dest@,
            r.extract_view() == extract@,
            r.movie_paths() == insert_decls(
                insert_decls(
                    Map::empty(),
                    match extract_rpy {
                        Some(t) => parse_lines(split_nl(t@)),
                        None => Seq::empty(),
                    },
                ),
                match dest_rpy {
                    Some(t) => parse_lines(split_nl(t@)),
                    None => Seq::empty(),
                },
            ),
    {
        let mut r = AssetResolver::new(dest, extract);
        proof {
            assert(r.movie_paths() =~= Map::<Seq<char>, Seq<char>>::empty());
        }
        match extract_rpy {
            Some(t) => r.load_visuals(t),
            None => {},
        }
        match dest_rpy {
            Some(t) => r.load_visuals(t),
            None => {},
        }
        r
    }

    /// Dest root.
    pub closed spec fn dest_view(&self) -> Seq<char> {
        self.dest@
    }

    /// Extract root.
    pub closed spec fn extract_view(&self) -> Seq<char> {
        self.extract@
    }

    /// `Movie()` declarations: name → relative path.
    pub closed spec fn movies_view(&self) -> Map<Seq<char>, String> {
        self.movies@
    }

    /// `Movie()` declarations: name → relative play path, as text.
    pub open spec fn movie_paths(&self) -> Map<Seq<char>, Seq<char>> {
        self.movies_view().map_values(|v: String| v@)
    }

    /// Dest root (probed first).
    pub fn dest(&self) -> (r: &str)
        ensures
            r@ == self.dest_view(),
    {
        self.dest.as_str()
    }

    /// Extract root (probed second).
    pub fn extract(&self) -> (r: &str)
        ensures
            r@ == self.extract_view(),
    {
        self.extract.as_str()
    }

    /// `Movie()` declarations.
    pub fn movies(&self) -> (r: &StrMap<String>)
        ensures
            r@ == self.movies_view(),
    {
        &self.movies
    }

    /// Insert or override a `Movie()` mapping.
    pub fn insert_movie(&mut self, name: &str, rel: &str)
        ensures
            final(self).movies_view().contains_key(name@),
            final(self).movies_view()[name@]@ == rel@,
            forall|k: Seq<char>| k != name@ ==> (#[trigger] final(self).movies_view().contains_key(k)
                == old(self).movies_view().contains_key(k) && (old(self).movies_view().contains_key(k)
                ==> final(self).movies_view()[k] == old(self).movies_view()[k])),
            final(self).dest_view() == old(self).dest_view(),
            final(self).extract_view() == old(self).extract_view(),
    {
        self.movies.insert(name.to_string(), rel.to_string());
    }

    /// Add the declarations of a `visuals.rpy` source (later ones win).
    pub fn load_visuals(&mut self, src: &str)
        ensures
            final(self).dest_view() == old(self).dest_view(),
            final(self).extract_view() == old(self).extract_view(),
            final(self).movie_paths() == insert_decls(old(self).movie_paths(), parse_lines(split_nl(src@))),
    {
        let decls = parse_visuals_rpy(src);
        let ghost pv = pairs_view(decls@);
        let ghost m0 = old(self).movie_paths();
        let mut i: usize = 0;
        proof {
            assert(pv.take(0) =~= Seq::<(Seq<char>, Seq<char>)>::empty());
        }
        while i < decls.len()
            invariant
                i <= decls@.len(),
                pv == pairs_view(decls@),
                pv == parse_lines(split_nl(src@)),
                self.dest@ == old(self).dest@,
                self.extract@ == old(self).extract@,
                self.movie_paths() == insert_decls(m0, pv.take(i as int)),
            decreases decls.len() - i,
        {
            let (name, rel) = &decls[i];
            let ghost before = self.movie_paths();
            let rel2 = rel.clone();
            self.movies.insert(name.clone(), rel2);
            proof {
                assert(pv[i as int] == (name@, rel@));
                assert(pv.take(i + 1).drop_last() =~= pv.take(i as int));
                assert(self.movie_paths() =~= before.insert(name@, rel@));
            }
            i = i + 1;
        }
        proof {
            assert(pv.take(i as int) =~= pv);
        }
    }

    /// Absolute candidates for a visual name, in probe order.
    pub fn visual_candidates(&self, name: &str) -> (r: Vec<String>)
        ensures
            crate::text::strs_view(r@) == probes(self.dest_view(), self.extract_view(), visual_rels(self.movies_view(), name@)),
    {
        let rels = self.visual_rel_list(name);
        self.probe_all(&rels)
    }

    /// Absolute candidates for an audio name, in probe order.
    pub fn audio_candidates(&self, name: &str) -> (r: Vec<String>)
        ensures
            crate::text::strs_view(r@) == probes(self.dest_view(), self.extract_view(), audio_rels(name@)),
    {
        let rels = audio_rel_list(name);
        self.probe_all(&rels)
    }

    /// Absolute candidates for a name: audio names as audio; others as a
    /// visual, then as audio.
    pub fn candidates(&self, name: &str) -> (r: Vec<String>)
        ensures
            crate::text::strs_view(r@) == probes(
                self.dest_view(),
                self.extract_view(),
                if is_audio_name_spec(name@) {
                    audio_rels(name@)
                } else {
                    visual_rels(self.movies_view(), name@) + audio_rels(name@)
                },
            ),
    {
        if is_audio_name(name) {
            self.audio_candidates(name)
        } else {
            let mut rels = self.visual_rel_list(name);
            let mut more = audio_rel_list(name);
            let ghost a = crate::text::strs_view(rels@);
            let ghost b = crate::text::strs_view(more@);
            rels.append(&mut more);
            assert(crate::text::strs_view(rels@) =~= a + b);
            self.probe_all(&rels)
        }
    }

    fn visual_rel_list(&self, name: &str) -> (r: Vec<String>)
        ensures
            crate::text::strs_view(r@) == visual_rels(self.movies_view(), name@),
    {
        let mut out: Vec<String> = Vec::new();
        let cs = chars_of(name);
        let nv = crate::text::trim_chars(cs.as_slice());
        if nv.len() == 0 {
            assert(crate::text::strs_view(out@) =~= Seq::<Seq<char>>::empty());
            return out;
        }
        let n = string_of(&nv);
        let ghost o0 = out@;
        match self.movies.get(n.as_str()) {
            Some(rel) => {
                out.push(rel.clone());
            },
            None => {},
        }
        let ghost o1 = out@;
        if looks_like_path(n.as_str()) {
            out.push(n.clone());
        }
        let ghost o2 = out@;
        let exts = visual_ext_list();
        let stem = strip_known_ext(n.as_str(), &exts);
        push_with_exts(&mut out, "images/", stem.as_str(), &exts);
        push_with_exts(&mut out, "images/animations/", stem.as_str(), &exts);
        proof {
            reveal_strlit("images/");
            reveal_strlit("images/animations/");
            assert(crate::text::strs_view(o1) =~= (if self.movies_view().contains_key(n@) {
                seq![self.movies_view()[n@]@]
            } else {
                Seq::<Seq<char>>::empty()
            }));
            assert(crate::text::strs_view(o2) =~= crate::text::strs_view(o1) + (if looks_like_path_spec(n@) {
                seq![n@]
            } else {
                Seq::<Seq<char>>::empty()
            }));
        }
        assert(crate::text::strs_view(out@) =~= visual_rels(self.movies_view(), name@));
        out
    }

    fn probe_all(&self, rels: &Vec<String>) -> (r: Vec<String>)
        ensures
            crate::text::strs_view(r@) == probes(self.dest_view(), self.extract_view(), crate::text::strs_view(rels@)),
    {
        let ghost rv = crate::text::strs_view(rels@);
        let mut out: Vec<String> = Vec::new();
        let mut i: usize = 0;
        assert(rv.take(0) =~= Seq::<Seq<char>>::empty());
        while i < rels.len()
            invariant
                i <= rels@.len(),
                rv == crate::text::strs_view(rels@),
                crate::text::strs_view(out@) == probes(self.dest_view(), self.extract_view(), rv.take(i as int)),
            decreases rels.len() - i,
        {
            let ghost o0 = out@;
            let a = crate::text::path_join(self.dest.as_str(), rels[i].as_str());
            let b = crate::text::path_join(self.extract.as_str(), rels[i].as_str());
            out.push(a);
            out.push(b);
            assert(rv.take(i + 1).drop_last() =~= rv.take(i as int));
            assert(rv.take(i + 1).last() == rels@[i as int]@);
            i = i + 1;
            assert(crate::text::strs_view(out@) =~= probes(self.dest_view(), self.extract_view(), rv.take(i as int)));
        }
        assert(rv.take(rels@.len() as int) =~= rv);
        out
    }
}

/// Append `prefix + stem + "." + ext` for each extension.
fn push_with_exts(out: &mut Vec<String>, prefix: &str, stem: &str, exts: &Vec<&'static str>)
    ensures
        crate::text::strs_view(final(out)@) == crate::text::strs_view(old(out)@) + with_exts(
            prefix@,
            stem@,
            exts@.map_values(|e: &'static str| e@),
        ),
{
    let ghost o0 = crate::text::strs_view(out@);
    let ghost ev = exts@.map_values(|e: &'static str| e@);
    let mut k: usize = 0;
    while k < exts.len()
        invariant
            k <= exts@.len(),
            ev == exts@.map_values(|e: &'static str| e@),
            crate::text::strs_view(out@) == o0 + with_exts(prefix@, stem@, ev).take(k as int),
        decreases exts.len() - k,
    {
        let p = cat3(prefix, stem, ".");
        let full = crate::text::concat_str(p.as_str(), exts[k]);
        let ghost before = out@;
        out.push(full);
        proof {
            reveal_strlit(".");
            assert(ev[k as int] == exts@[k as int]@);
            assert(with_exts(prefix@, stem@, ev)[k as int] == full@);
            crate::story_compile::lemma_strs_push_pub(before, full);
            assert(with_exts(prefix@, stem@, ev).take(k + 1) =~= with_exts(prefix@, stem@, ev).take(k as int).push(full@));
        }
        k = k + 1;
        assert(crate::text::strs_view(out@) =~= o0 + with_exts(prefix@, stem@, ev).take(k as int));
    }
    assert(with_exts(prefix@, stem@, ev).take(exts@.len() as int) =~= with_exts(prefix@, stem@, ev));
}

fn audio_rel_list(name: &str) -> (r: Vec<String>)
    ensures
        crate::text::strs_view(r@) == audio_rels(name@),
{
    let mut out: Vec<String> = Vec::new();
    let cs = chars_of(name);
    let nv = crate::text::trim_chars(cs.as_slice());
    if nv.len() == 0 {
        assert(crate::text::strs_view(out@) =~= Seq::<Seq<char>>::empty());
        return out;
    }
    let n = string_of(&nv);
    if looks_like_path(n.as_str()) {
        out.push(n.clone());
    }
    let ghost o1 = out@;
    let file = last_segment_of(n.as_str());
    let exts = audio_ext_list();
    if has_known_ext(file.as_str(), &exts) {
        out.push(crate::text::concat_str("audio/", file.as_str()));
    }
    let ghost o2 = out@;
    let stem = strip_known_ext(file.as_str(), &exts);
    push_with_exts(&mut out, "audio/", stem.as_str(), &exts);
    proof {
        reveal_strlit("audio/");
        assert(crate::text::strs_view(o1) =~= (if looks_like_path_spec(n@) {
            seq![n@]
        } else {
            Seq::<Seq<char>>::empty()
        }));
        assert(crate::text::strs_view(o2) =~= crate::text::strs_view(o1) + (if has_known_ext_spec(
            file@,
            audio_exts(),
        ) {
            seq!["audio/"@ + file@]
        } else {
            Seq::<Seq<char>>::empty()
        }));
    }
    assert(crate::text::strs_view(out@) =~= audio_rels(name@));
    out
}

/// The first of `cands` (from position `i` on) whose flag in `found` is
/// set; a candidate without a flag counts as not found.
pub open spec fn first_found(cands: Seq<Seq<char>>, found: Seq<bool>, i: int) -> Option<Seq<char>>
    decreases cands.len() - i,
{
    if i < 0 || i >= cands.len() {
        None
    } else if i < found.len() && found[i] {
        Some(cands[i])
    } else {
        first_found(cands, found, i + 1)
    }
}

/// The first candidate the host found on disk (`found[i]` for candidate
/// `i`), if any.
pub fn first_existing(cands: &Vec<String>, found: &Vec<bool>) -> (r: Option<String>)
    ensures
        opt_str(r) == first_found(crate::text::strs_view(cands@), found@, 0),
{
    let ghost cv = crate::text::strs_view(cands@);
    let mut i: usize = 0;
    while i < cands.len()
        invariant
            i <= cands@.len(),
            cv == crate::text::strs_view(cands@),
            first_found(cv, found@, 0) == first_found(cv, found@, i as int),
        decreases cands.len() - i,
    {
        if i < found.len() && found[i] {
            return Some(cands[i].clone());
        }
        i = i + 1;
    }
    None
}

impl AssetResolver {
    /// The visual file for `name`: the first of
    /// [`AssetResolver::visual_candidates`] that the host found on disk
    /// (`found[i]` for candidate `i`).
    pub fn resolve_visual(&self, name: &str, found: &Vec<bool>) -> (r: Option<String>)
        ensures
            opt_str(r) == first_found(
                probes(self.dest_view(), self.extract_view(), visual_rels(self.movies_view(), name@)),
                found@,
                0,
            ),
    {
        let cands = self.visual_candidates(name);
        first_existing(&cands, found)
    }

    /// The audio file for `name`: the first of
    /// [`AssetResolver::audio_candidates`] that the host found on disk.
    pub fn resolve_audio(&self, name: &str, found: &Vec<bool>) -> (r: Option<String>)
        ensures
            opt_str(r) == first_found(probes(self.dest_view(), self.extract_view(), audio_rels(name@)), found@, 0),
    {
        let cands = self.audio_candidates(name);
        first_existing(&cands, found)
    }

    /// Visual or audio by the name's form: the first of
    /// [`AssetResolver::candidates`] that the host found on disk. On one
    /// file system this is [`AssetResolver::resolve_audio`] for an audio
    /// name, and otherwise [`AssetResolver::resolve_visual`] falling back to
    /// `resolve_audio` ([`lemma_resolve_one_fs`]).
    pub fn resolve(&self, name: &str, found: &Vec<bool>) -> (r: Option<String>)
        ensures
            opt_str(r) == first_found(
                probes(
                    self.dest_view(),
                    self.extract_view(),
                    if is_audio_name_spec(name@) {
                        audio_rels(name@)
                    } else {
                        visual_rels(self.movies_view(), name@) + audio_rels(name@)
                    },
                ),
                found@,
                0,
            ),
    {
        let cands = self.candidates(name);
        first_existing(&cands, found)
    }
}

/// What a host answers for each candidate on a file system whose
/// existing files are `fs`.
pub open spec fn found_in(fs: Set<Seq<char>>, cands: Seq<Seq<char>>) -> Seq<bool> {
    cands.map_values(|c: Seq<char>| fs.contains(c))
}

/// `a`, or else `b`.
pub open spec fn or_else(a: Option<Seq<char>>, b: Option<Seq<char>>) -> Option<Seq<char>> {
    match a {
        Some(x) => Some(x),
        None => b,
    }
}

proof fn lemma_probes_append(dest: Seq<char>, extract: Seq<char>, a: Seq<Seq<char>>, b: Seq<Seq<char>>)
    ensures
        probes(dest, extract, a + b) == probes(dest, extract, a) + probes(dest, extract, b),
    decreases b.len(),
{
    if b.len() == 0 {
        assert(a + b =~= a);
        assert(probes(dest, extract, a) + probes(dest, extract, b) =~= probes(dest, extract, a));
    } else {
        lemma_probes_append(dest, extract, a, b.drop_last());
        assert((a + b).drop_last() =~= a + b.drop_last());
        assert((a + b).last() == b.last());
        let tail = seq![
            crate::text::std_path_join(dest, b.last()),
            crate::text::std_path_join(extract, b.last()),
        ];
        assert(probes(dest, extract, a) + probes(dest, extract, b) =~= probes(dest, extract, a) + probes(
            dest,
            extract,
            b.drop_last(),
        ) + tail);
    }
}

proof fn lemma_found_shift(x: Seq<Seq<char>>, y: Seq<Seq<char>>, fs: Set<Seq<char>>, j: int)
    requires
        0 <= j <= y.len(),
    ensures
        first_found(x + y, found_in(fs, x + y), x.len() + j) == first_found(y, found_in(fs, y), j),
    decreases y.len() - j,
{
    if j < y.len() {
        lemma_found_shift(x, y, fs, j + 1);
        assert((x + y)[x.len() + j] == y[j]);
    }
}

proof fn lemma_found_append(x: Seq<Seq<char>>, y: Seq<Seq<char>>, fs: Set<Seq<char>>, i: int)
    requires
        0 <= i <= x.len(),
    ensures
        first_found(x + y, found_in(fs, x + y), i) == or_else(
            first_found(x, found_in(fs, x), i),
            first_found(y, found_in(fs, y), 0),
        ),
    decreases x.len() - i,
{
    if i < x.len() {
        lemma_found_append(x, y, fs, i + 1);
        assert((x + y)[i] == x[i]);
    } else {
        lemma_found_shift(x, y, fs, 0);
    }
}

/// On one file system, resolving a name gives the audio file for an audio
/// name, and otherwise the visual file or, failing that, the audio file:
/// the flags that [`AssetResolver::resolve`], [`AssetResolver::resolve_visual`]
/// and [`AssetResolver::resolve_audio`] are handed all say which of their
/// candidates exist in the same `fs`.
pub proof fn lemma_resolve_one_fs(r: AssetResolver, name: Seq<char>, fs: Set<Seq<char>>)
    ensures
        ({
            let vis = probes(r.dest_view(), r.extract_view(), visual_rels(r.movies_view(), name));
            let aud = probes(r.dest_view(), r.extract_view(), audio_rels(name));
            let all = probes(
                r.dest_view(),
                r.extract_view(),
                if is_audio_name_spec(name) {
                    audio_rels(name)
                } else {
                    visual_rels(r.movies_view(), name) + audio_rels(name)
                },
            );
            first_found(all, found_in(fs, all), 0) == if is_audio_name_spec(name) {
                first_found(aud, found_in(fs, aud), 0)
            } else {
                or_else(first_found(vis, found_in(fs, vis), 0), first_found(aud, found_in(fs, aud), 0))
            }
        }),
{
    if !is_audio_name_spec(name) {
        let vr = visual_rels(r.movies_view(), name);
        let ar = audio_rels(name);
        lemma_probes_append(r.dest_view(), r.extract_view(), vr, ar);
        lemma_found_append(
            probes(r.dest_view(), r.extract_view(), vr),
            probes(r.dest_view(), r.extract_view(), ar),
            fs,
            0,
        );
    }
}

} // verus!
