//! Movie stream descriptions as the probing tools print them: the frame
//! size (and the text of the frame rate, which the host turns into a
//! number) from `ffprobe`'s CSV line or from `ffmpeg -i`'s stream banner,
//! and the byte size of one RGBA frame.

use vstd::prelude::*;
use crate::assets::{find_first, find_from, lemma_find_from, slice_of};
use crate::text::{back_ws, chars_of, contains_spec, has_char, is_ws, is_ws_spec, occurs_at, trim_chars, trim_spec};

verus! {

// ── Numbers ──────────────────────────────────────────────────────────────

/// Every character of `t` is an ASCII digit.
pub open spec fn all_digits(t: Seq<char>) -> bool {
    forall|i: int| 0 <= i < t.len() ==> '0' <= #[trigger] t[i] && t[i] <= '9'
}

/// Decimal value of a digit string.
pub open spec fn digits_value(t: Seq<char>) -> nat
    decreases t.len(),
{
    if t.len() == 0 {
        0
    } else {
        digits_value(t.drop_last()) * 10 + ((t.last() as int - '0' as int) as nat)
    }
}

/// `u32::from_str`: an optional `+`, then one or more ASCII digits whose
/// value fits in a `u32`.
pub open spec fn parse_u32_spec(s: Seq<char>) -> Option<u32> {
    let t = if s.len() > 0 && s[0] == '+' {
        s.subrange(1, s.len() as int)
    } else {
        s
    };
    if t.len() == 0 || !all_digits(t) || digits_value(t) > u32::MAX {
        None
    } else {
        Some(digits_value(t) as u32)
    }
}

proof fn lemma_digits_prefix(t: Seq<char>, k: int)
    requires
        all_digits(t),
        0 <= k <= t.len(),
    ensures
        digits_value(t.take(k)) <= digits_value(t),
    decreases t.len(),
{
    if k < t.len() {
        let u = t.drop_last();
        assert(all_digits(u)) by {
            assert forall|i: int| 0 <= i < u.len() implies '0' <= #[trigger] u[i] && u[i] <= '9' by {
                assert(u[i] == t[i]);
            }
        }
        lemma_digits_prefix(u, k);
        assert(u.take(k) =~= t.take(k));
        assert('0' <= t.last());
    } else {
        assert(t.take(k) =~= t);
    }
}

/// Parse a decimal `u32` the way `str::parse::<u32>` does.
pub fn parse_u32(s: &[char]) -> (r: Option<u32>)
    ensures
        r == parse_u32_spec(s@),
{
    let mut start: usize = 0;
    if s.len() > 0 && s[0] == '+' {
        start = 1;
    }
    if start >= s.len() {
        return None;
    }
    let ghost t = s@.subrange(start as int, s@.len() as int);
    assert(t =~= (if s@.len() > 0 && s@[0] == '+' {
        s@.subrange(1, s@.len() as int)
    } else {
        s@
    }));
    let mut acc: u64 = 0;
    let mut i: usize = start;
    assert(t.take(0) =~= Seq::<char>::empty());
    while i < s.len()
        invariant
            start <= i <= s.len(),
            start < s.len(),
            t == s@.subrange(start as int, s@.len() as int),
            t == (if s@.len() > 0 && s@[0] == '+' {
                s@.subrange(1, s@.len() as int)
            } else {
                s@
            }),
            all_digits(t.take(i - start)),
            acc == digits_value(t.take(i - start)),
            acc <= u32::MAX,
        decreases s.len() - i,
    {
        let c = s[i];
        if c < '0' || c > '9' {
            assert(t[i - start] == c);
            assert(!all_digits(t));
            return None;
        }
        let d: u64 = (c as u32 - '0' as u32) as u64;
        acc = acc * 10 + d;
        proof {
            let p = t.take(i + 1 - start);
            assert(p.drop_last() =~= t.take(i - start));
            assert(p.last() == c);
            assert(acc == digits_value(p));
            assert(all_digits(p)) by {
                assert forall|k: int| 0 <= k < p.len() implies '0' <= #[trigger] p[k] && p[k] <= '9' by {
                    if k < p.len() - 1 {
                        assert(p[k] == t.take(i - start)[k]);
                    }
                }
            }
        }
        if acc > 0xffff_ffffu64 {
            proof {
                if all_digits(t) {
                    lemma_digits_prefix(t, i + 1 - start);
                }
            }
            return None;
        }
        i = i + 1;
    }
    assert(t.take(i - start) =~= t);
    Some(acc as u32)
}

// ── Splitting ────────────────────────────────────────────────────────────

/// The pieces of `s` between separator characters (those in `seps`): one
/// more piece than there are separators (`str::split` with a set of
/// characters).
pub open spec fn split_where(s: Seq<char>, seps: Seq<char>) -> Seq<Seq<char>>
    decreases s.len(),
{
    if s.len() == 0 {
        seq![Seq::empty()]
    } else {
        let prev = split_where(s.drop_last(), seps);
        if seps.contains(s.last()) {
            prev.push(Seq::empty())
        } else {
            prev.update(prev.len() - 1, prev.last().push(s.last()))
        }
    }
}

proof fn lemma_split_nonempty(s: Seq<char>, seps: Seq<char>)
    ensures
        split_where(s, seps).len() >= 1,
    decreases s.len(),
{
    if s.len() > 0 {
        lemma_split_nonempty(s.drop_last(), seps);
    }
}

/// Character views of a list of character vectors.
pub open spec fn pieces_view(v: Seq<Vec<char>>) -> Seq<Seq<char>> {
    v.map_values(|p: Vec<char>| p@)
}

/// Split `cs` at every character of `seps`.
pub fn split_at_any(cs: &[char], seps: &[char]) -> (r: Vec<Vec<char>>)
    ensures
        pieces_view(r@) == split_where(cs@, seps@),
{
    let mut out: Vec<Vec<char>> = Vec::new();
    let mut cur: Vec<char> = Vec::new();
    let mut i: usize = 0;
    assert(cs@.take(0) =~= Seq::<char>::empty());
    assert(pieces_view(out@).push(cur@) =~= split_where(cs@.take(0), seps@));
    while i < cs.len()
        invariant
            i <= cs@.len(),
            pieces_view(out@).push(cur@) == split_where(cs@.take(i as int), seps@),
        decreases cs.len() - i,
    {
        let c = cs[i];
        let ghost before = cs@.take(i as int);
        let ghost prev = split_where(before, seps@);
        assert(cs@.take(i + 1).drop_last() =~= before);
        assert(cs@.take(i + 1).last() == c);
        if has_char(seps, c) {
            let ghost o0 = out@;
            let ghost c0 = cur@;
            out.push(cur);
            cur = Vec::new();
            assert(pieces_view(out@) =~= pieces_view(o0).push(c0));
            assert(pieces_view(out@).push(cur@) =~= prev.push(Seq::empty()));
        } else {
            let ghost o0 = out@;
            cur.push(c);
            assert(pieces_view(out@) =~= pieces_view(o0));
            assert(pieces_view(out@).push(cur@) =~= prev.update(prev.len() - 1, prev.last().push(c)));
        }
        i = i + 1;
    }
    assert(cs@.take(cs@.len() as int) =~= cs@);
    let ghost o0 = out@;
    let ghost c0 = cur@;
    out.push(cur);
    assert(pieces_view(out@) =~= pieces_view(o0).push(c0));
    out
}

// ── Stream descriptions ──────────────────────────────────────────────────

/// The text of `s` up to its first newline.
pub open spec fn first_line(s: Seq<char>) -> Seq<char> {
    split_where(s, seq!['\n'])[0]
}

/// What `ffprobe -of csv=p=0 -show_entries stream=width,height,r_frame_rate`
/// prints, read from its first line: width and height (both positive) and
/// the frame-rate text (`"30/1"` when the line has no third field).
pub open spec fn ffprobe_csv_spec(s: Seq<char>) -> Option<(u32, u32, Seq<char>)> {
    let line = trim_spec(first_line(s));
    let parts = split_where(line, seq![',']);
    if line.len() == 0 || parts.len() < 2 {
        None
    } else {
        match (parse_u32_spec(trim_spec(parts[0])), parse_u32_spec(trim_spec(parts[1]))) {
            (Some(w), Some(h)) => if w == 0 || h == 0 {
                None
            } else {
                Some((w, h, if parts.len() >= 3 { parts[2] } else { "30/1"@ }))
            },
            _ => None,
        }
    }
}

/// `W x H` dimensions of a token (split at its first `x`), both positive.
pub open spec fn token_dims(t: Seq<char>) -> Option<(u32, u32)> {
    match find_from(t, seq!['x'], 0) {
        None => None,
        Some(k) => match (parse_u32_spec(t.subrange(0, k)), parse_u32_spec(t.subrange(k + 1, t.len() as int))) {
            (Some(w), Some(h)) => if w > 0 && h > 0 {
                Some((w, h))
            } else {
                None
            },
            _ => None,
        },
    }
}

/// The dimensions of the last token (trimmed) that has some.
pub open spec fn last_dims(toks: Seq<Seq<char>>) -> Option<(u32, u32)>
    decreases toks.len(),
{
    if toks.len() == 0 {
        None
    } else {
        match token_dims(trim_spec(toks.last())) {
            Some(d) => Some(d),
            None => last_dims(toks.drop_last()),
        }
    }
}

/// Start of the run of non-whitespace characters that ends at `j`.
pub open spec fn word_start(s: Seq<char>, j: int) -> int
    decreases j,
{
    if 0 < j <= s.len() && !is_ws_spec(s[j - 1]) {
        word_start(s, j - 1)
    } else {
        j
    }
}

/// The last whitespace-separated word of `s`
/// (`str::split_whitespace().last()`).
pub open spec fn last_word(s: Seq<char>) -> Option<Seq<char>> {
    let e = back_ws(s, 0, s.len() as int);
    if e <= 0 {
        None
    } else {
        Some(s.subrange(word_start(s, e), e))
    }
}

/// The word before the first `" fps"` of a line, if any.
pub open spec fn fps_text(line: Seq<char>) -> Option<Seq<char>> {
    match find_from(line, " fps"@, 0) {
        None => None,
        Some(i) => last_word(line.subrange(0, i)),
    }
}

/// A `Video:` stream line with positive dimensions: the dimensions of its
/// last `WxH` token (tokens split at `,` and space) and its fps text.
pub open spec fn video_line(line: Seq<char>) -> Option<(u32, u32, Option<Seq<char>>)> {
    if !contains_spec(line, "Video:"@) {
        None
    } else {
        match last_dims(split_where(line, seq![',', ' '])) {
            Some((w, h)) => Some((w, h, fps_text(line))),
            None => None,
        }
    }
}

/// The first video line from position `i` on.
pub open spec fn first_video(lines: Seq<Seq<char>>, i: int) -> Option<(u32, u32, Option<Seq<char>>)>
    decreases lines.len() - i,
{
    if i < 0 || i >= lines.len() {
        None
    } else {
        match video_line(lines[i]) {
            Some(v) => Some(v),
            None => first_video(lines, i + 1),
        }
    }
}

/// What `ffmpeg -i` prints on stderr, read line by line: the first
/// `Video:` stream with a frame size. (The lines are the newline-separated
/// pieces; a `\r` before a newline changes nothing, since tokens are
/// trimmed and the fps word is found before it.)
pub open spec fn ffmpeg_banner_spec(s: Seq<char>) -> Option<(u32, u32, Option<Seq<char>>)> {
    first_video(split_where(s, seq!['\n']), 0)
}

/// Parse `ffprobe`'s CSV stream line: width, height and frame-rate text.
pub fn parse_ffprobe_csv(s: &str) -> (r: Option<(u32, u32, String)>)
    ensures
        match ffprobe_csv_spec(s@) {
            Some((w, h, rate)) => r matches Some(x) && x.0 == w && x.1 == h && x.2@ == rate,
            None => r is None,
        },
{
    let cs = chars_of(s);
    let nl: Vec<char> = vec!['\n'];
    let lines = split_at_any(cs.as_slice(), nl.as_slice());
    proof {
        lemma_split_nonempty(cs@, nl@);
        assert(nl@ =~= seq!['\n']);
    }
    let line = trim_chars(lines[0].as_slice());
    let comma: Vec<char> = vec![','];
    let parts = split_at_any(line.as_slice(), comma.as_slice());
    proof {
        assert(comma@ =~= seq![',']);
        assert(pieces_view(lines@)[0] == lines@[0]@);
    }
    if line.len() == 0 || parts.len() < 2 {
        return None;
    }
    assert(pieces_view(parts@)[0] == parts@[0]@);
    assert(pieces_view(parts@)[1] == parts@[1]@);
    let w = match parse_u32(trim_chars(parts[0].as_slice()).as_slice()) {
        Some(v) => v,
        None => return None,
    };
    let h = match parse_u32(trim_chars(parts[1].as_slice()).as_slice()) {
        Some(v) => v,
        None => return None,
    };
    if w == 0 || h == 0 {
        return None;
    }
    let rate = if parts.len() >= 3 {
        assert(pieces_view(parts@)[2] == parts@[2]@);
        crate::text::string_from(parts[2].as_slice())
    } else {
        "30/1".to_string()
    };
    Some((w, h, rate))
}

/// `W x H` dimensions of a token, both positive.
fn token_dims_of(t: &[char]) -> (r: Option<(u32, u32)>)
    ensures
        r == token_dims(t@),
{
    let x: Vec<char> = vec!['x'];
    assert(x@ =~= seq!['x']);
    let k = match find_first(t, x.as_slice()) {
        Some(k) => k,
        None => return None,
    };
    proof {
        lemma_find_from(t@, x@, 0);
        assert(occurs_at(t@, x@, k as int));
    }
    assert(k < t.len());
    let a = slice_of(t, 0, k);
    let b = slice_of(t, k + 1, t.len());
    match (parse_u32(a.as_slice()), parse_u32(b.as_slice())) {
        (Some(w), Some(h)) => if w > 0 && h > 0 {
            Some((w, h))
        } else {
            None
        },
        _ => None,
    }
}

/// The last word of `cs`, if it has one.
fn last_word_of(cs: &[char]) -> (r: Option<Vec<char>>)
    ensures
        match last_word(cs@) {
            Some(w) => r matches Some(v) && v@ == w,
            None => r is None,
        },
{
    let mut e: usize = cs.len();
    while e > 0 && is_ws(cs[e - 1])
        invariant
            e <= cs@.len(),
            back_ws(cs@, 0, cs@.len() as int) == back_ws(cs@, 0, e as int),
        decreases e,
    {
        e = e - 1;
    }
    if e == 0 {
        return None;
    }
    let mut b: usize = e;
    while b > 0 && !is_ws(cs[b - 1])
        invariant
            b <= e <= cs@.len(),
            word_start(cs@, e as int) == word_start(cs@, b as int),
        decreases b,
    {
        b = b - 1;
    }
    Some(slice_of(cs, b, e))
}

/// The video stream of one `ffmpeg -i` line, if it is one.
fn video_line_of(line: &[char]) -> (r: Option<(u32, u32, Option<Vec<char>>)>)
    ensures
        match video_line(line@) {
            Some((w, h, f)) => r matches Some(x) && x.0 == w && x.1 == h && match f {
                Some(t) => x.2 matches Some(v) && v@ == t,
                None => x.2 is None,
            },
            None => r is None,
        },
{
    let video = chars_of("Video:");
    proof {
        reveal_strlit("Video:");
    }
    if !crate::text::contains(line, video.as_slice()) {
        return None;
    }
    let seps: Vec<char> = vec![',', ' '];
    assert(seps@ =~= seq![',', ' ']);
    let toks = split_at_any(line, seps.as_slice());
    let ghost tv = pieces_view(toks@);
    let mut found: Option<(u32, u32)> = None;
    let mut i: usize = 0;
    assert(tv.take(0) =~= Seq::<Seq<char>>::empty());
    while i < toks.len()
        invariant
            i <= toks@.len(),
            tv == pieces_view(toks@),
            found == last_dims(tv.take(i as int)),
        decreases toks.len() - i,
    {
        let t = trim_chars(toks[i].as_slice());
        assert(tv.take(i + 1).drop_last() =~= tv.take(i as int));
        assert(tv.take(i + 1).last() == toks@[i as int]@);
        match token_dims_of(t.as_slice()) {
            Some(d) => {
                found = Some(d);
            },
            None => {},
        }
        i = i + 1;
    }
    assert(tv.take(toks@.len() as int) =~= tv);
    let (w, h) = match found {
        Some(d) => d,
        None => return None,
    };
    let fps = chars_of(" fps");
    proof {
        reveal_strlit(" fps");
    }
    let word = match find_first(line, fps.as_slice()) {
        Some(idx) => {
            proof {
                lemma_find_from(line@, fps@, 0);
            }
            let head = slice_of(line, 0, idx);
            last_word_of(head.as_slice())
        },
        None => None,
    };
    Some((w, h, word))
}

/// Parse `ffmpeg -i`'s stderr: the frame size of the first `Video:` stream
/// that shows one, and the fps word of that line.
pub fn parse_ffmpeg_i_stderr(stderr: &str) -> (r: Option<(u32, u32, Option<String>)>)
    ensures
        match ffmpeg_banner_spec(stderr@) {
            Some((w, h, f)) => r matches Some(x) && x.0 == w && x.1 == h && match f {
                Some(t) => x.2 matches Some(v) && v@ == t,
                None => x.2 is None,
            },
            None => r is None,
        },
{
    let cs = chars_of(stderr);
    let nl: Vec<char> = vec!['\n'];
    assert(nl@ =~= seq!['\n']);
    let lines = split_at_any(cs.as_slice(), nl.as_slice());
    let ghost lv = pieces_view(lines@);
    let mut i: usize = 0;
    while i < lines.len()
        invariant
            i <= lines@.len(),
            lv == pieces_view(lines@),
            lv == split_where(stderr@, seq!['\n']),
            first_video(lv, 0) == first_video(lv, i as int),
        decreases lines.len() - i,
    {
        assert(lv[i as int] == lines@[i as int]@);
        match video_line_of(lines[i].as_slice()) {
            Some((w, h, word)) => {
                let f = match word {
                    Some(v) => Some(crate::text::string_from(v.as_slice())),
                    None => None,
                };
                return Some((w, h, f));
            },
            None => {},
        }
        i = i + 1;
    }
    None
}

/// Bytes of one tightly packed RGBA frame: `width × height × 4`,
/// saturating at `usize::MAX`.
pub fn rgba_frame_bytes(width: u32, height: u32) -> (r: usize)
    ensures
        r == if width * height * 4 <= usize::MAX {
            width * height * 4
        } else {
            usize::MAX as int
        },
{
    assert((width as u128) * (height as u128) <= 0xffff_ffff_ffff_ffffu128) by (nonlinear_arith)
        requires
            width <= 0xffff_ffffu32,
            height <= 0xffff_ffffu32,
    ;
    let total: u128 = (width as u128) * (height as u128) * 4;
    if total > usize::MAX as u128 {
        usize::MAX
    } else {
        total as usize
    }
}

} // verus!
