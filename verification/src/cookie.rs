//! Extraction of the admin session token from an HTTP Cookie header.
//!
//! The header is split at semicolons; each piece is trimmed of surrounding
//! blanks, and the first piece that starts with the session cookie name and
//! an equals sign yields the token: the rest of that piece.

use vstd::prelude::*;

verus! {

/// The name of the session cookie.
pub fn session_cookie_name() -> (r: &'static str)
    ensures
        r@ == "ag_session"@,
{
    "ag_session"
}

/// A blank character trimmed from the ends of a cookie piece: space or
/// tab, the optional whitespace an HTTP header can carry.
pub open spec fn is_cookie_blank(c: char) -> bool {
    c == ' ' || c == '\t'
}

/// Index of the first semicolon at or after `lo`, or the length when the
/// tail holds none.
pub open spec fn semi_or_end(s: Seq<char>, lo: int) -> int
    decreases s.len() - lo,
{
    if lo < 0 || lo >= s.len() {
        s.len() as int
    } else if s[lo] == ';' {
        lo
    } else {
        semi_or_end(s, lo + 1)
    }
}

/// The header split into pieces at semicolons. The semicolons themselves
/// are dropped; empty pieces are kept.
pub open spec fn split_semis(s: Seq<char>) -> Seq<Seq<char>>
    decreases s.len(),
{
    let i = semi_or_end(s, 0);
    if 0 <= i < s.len() {
        seq![s.subrange(0, i)] + split_semis(s.subrange(i + 1, s.len() as int))
    } else {
        seq![s]
    }
}

/// The piece with its leading blanks dropped.
pub open spec fn trim_front(s: Seq<char>) -> Seq<char>
    decreases s.len(),
{
    if s.len() > 0 && is_cookie_blank(s[0]) {
        trim_front(s.drop_first())
    } else {
        s
    }
}

/// The piece with its trailing blanks dropped.
pub open spec fn trim_back(s: Seq<char>) -> Seq<char>
    decreases s.len(),
{
    if s.len() > 0 && is_cookie_blank(s.last()) {
        trim_back(s.drop_last())
    } else {
        s
    }
}

/// The piece with blanks dropped from both ends.
pub open spec fn trim_blanks(s: Seq<char>) -> Seq<char> {
    trim_back(trim_front(s))
}

/// `s` starts with `p`.
pub open spec fn has_prefix(s: Seq<char>, p: Seq<char>) -> bool {
    s.len() >= p.len() && s.subrange(0, p.len() as int) == p
}

/// The marker a session piece starts with: the cookie name and `=`.
pub open spec fn cookie_marker() -> Seq<char> {
    "ag_session="@
}

/// The token taken from the first trimmed piece that starts with the
/// marker, if any piece does.
pub open spec fn session_from_pieces(pieces: Seq<Seq<char>>) -> Option<Seq<char>>
    decreases pieces.len(),
{
    if pieces.len() == 0 {
        None
    } else {
        let t = trim_blanks(pieces[0]);
        if has_prefix(t, cookie_marker()) {
            Some(t.subrange(cookie_marker().len() as int, t.len() as int))
        } else {
            session_from_pieces(pieces.drop_first())
        }
    }
}

/// What `extract_session_from_cookie` returns for a present header.
pub open spec fn spec_extract_session(header: Seq<char>) -> Option<Seq<char>> {
    session_from_pieces(split_semis(header))
}

/// What `semi_or_end` returns: the first semicolon position at or after
/// `lo`, or the length.
pub proof fn lemma_semi_or_end_props(s: Seq<char>, lo: int)
    requires
        0 <= lo <= s.len(),
    ensures
        lo <= semi_or_end(s, lo) <= s.len(),
        semi_or_end(s, lo) < s.len() ==> s[semi_or_end(s, lo)] == ';',
        forall|t: int| lo <= t < semi_or_end(s, lo) ==> s[t] != ';',
    decreases s.len() - lo,
{
    if lo < s.len() && s[lo] != ';' {
        lemma_semi_or_end_props(s, lo + 1);
    }
}

/// Scanning a suffix for a semicolon is scanning the whole from the same
/// spot.
pub proof fn lemma_semi_or_end_shift(s: Seq<char>, lo: int)
    requires
        0 <= lo <= s.len(),
    ensures
        semi_or_end(s.subrange(lo, s.len() as int), 0) == semi_or_end(s, lo) - lo,
{
    lemma_semi_or_end_props(s, lo);
    let sub = s.subrange(lo, s.len() as int);
    lemma_semi_or_end_props(sub, 0);
    let a = semi_or_end(s, lo);
    let b = semi_or_end(sub, 0);
    if b + lo < a {
        assert(s[b + lo] == sub[b]);
        assert(false);
    }
    if a - lo < b {
        assert(sub[a - lo] == s[a]);
        assert(false);
    }
}

/// Dropping `j` leading blanks, down to a non-blank, is taking the suffix
/// from `j`.
pub proof fn lemma_trim_front_idx(x: Seq<char>, j: int)
    requires
        0 <= j <= x.len(),
        forall|t: int| 0 <= t < j ==> is_cookie_blank(x[t]),
        j < x.len() ==> !is_cookie_blank(x[j]),
    ensures
        trim_front(x) == x.subrange(j, x.len() as int),
    decreases j,
{
    if j > 0 {
        assert(trim_front(x) == trim_front(x.drop_first()));
        lemma_trim_front_idx(x.drop_first(), j - 1);
        assert(x.drop_first().subrange(j - 1, x.drop_first().len() as int) =~= x.subrange(
            j,
            x.len() as int,
        ));
    } else {
        if x.len() > 0 {
            assert(trim_front(x) == x);
        }
        assert(x.subrange(0, x.len() as int) =~= x);
    }
}

/// Dropping trailing blanks, back to a non-blank at `b - 1`, is taking the
/// prefix up to `b`.
pub proof fn lemma_trim_back_idx(x: Seq<char>, b: int)
    requires
        0 <= b <= x.len(),
        forall|t: int| b <= t < x.len() ==> is_cookie_blank(x[t]),
        b > 0 ==> !is_cookie_blank(x[b - 1]),
    ensures
        trim_back(x) == x.subrange(0, b),
    decreases x.len() - b,
{
    if b < x.len() {
        assert(trim_back(x) == trim_back(x.drop_last()));
        lemma_trim_back_idx(x.drop_last(), b);
    } else {
        if x.len() > 0 {
            assert(trim_back(x) == x);
        }
        assert(x.subrange(0, x.len() as int) =~= x);
    }
}

/// Index of the first semicolon at or after `lo`, or the length; the
/// executable mirror of `semi_or_end`.
fn scan_semi(s: &str, n: usize, lo: usize) -> (r: usize)
    requires
        n == s@.len(),
        lo <= n,
    ensures
        r == semi_or_end(s@, lo as int),
        lo <= r <= n,
    decreases n - lo,
{
    proof {
        lemma_semi_or_end_props(s@, lo as int);
    }
    if lo >= n {
        return n;
    }
    if s.get_char(lo) == ';' {
        lo
    } else {
        scan_semi(s, n, lo + 1)
    }
}

/// Extracts the session token from a Cookie header: the first
/// semicolon-separated piece that, once trimmed, starts with the cookie
/// name and `=` yields the rest of the piece.
#[verifier::loop_isolation(false)]
pub fn extract_session_from_cookie(cookie_header: Option<&str>) -> (r: Option<String>)
    ensures
        match cookie_header {
            None => r is None,
            Some(h) => match spec_extract_session(h@) {
                Some(tok) => r matches Some(t) && t@ == tok,
                None => r is None,
            },
        },
{
    let h = match cookie_header {
        None => {
            return None;
        },
        Some(h) => h,
    };
    let n = h.unicode_len();
    let mut pos: usize = 0;
    proof {
        assert(h@.subrange(0, n as int) =~= h@);
    }
    loop
        invariant
            pos <= n,
            n == h@.len(),
            spec_extract_session(h@) == session_from_pieces(
                split_semis(h@.subrange(pos as int, n as int)),
            ),
        decreases n + 1 - pos,
    {
        let semi = scan_semi(h, n, pos);
        proof {
            lemma_semi_or_end_shift(h@, pos as int);
        }
        // The current piece is h[pos .. semi]; trim it.
        let mut a: usize = pos;
        while a < semi && is_blank_char(h.get_char(a))
            invariant
                pos <= a <= semi <= n,
                n == h@.len(),
                forall|t: int| pos <= t < a ==> is_cookie_blank(h@[t]),
            decreases semi - a,
        {
            a += 1;
        }
        let mut b: usize = semi;
        while b > a && is_blank_char(h.get_char(b - 1))
            invariant
                a <= b <= semi <= n,
                n == h@.len(),
                forall|t: int| b <= t < semi ==> is_cookie_blank(h@[t]),
            decreases b,
        {
            b -= 1;
        }
        proof {
            let piece = h@.subrange(pos as int, semi as int);
            lemma_trim_front_idx(piece, a - pos);
            assert(piece.subrange(a - pos, piece.len() as int) =~= h@.subrange(
                a as int,
                semi as int,
            ));
            lemma_trim_back_idx(h@.subrange(a as int, semi as int), b - a);
            assert(h@.subrange(a as int, semi as int).subrange(0, b - a) =~= h@.subrange(
                a as int,
                b as int,
            ));
            assert(trim_blanks(piece) == h@.subrange(a as int, b as int));
        }
        // Does the trimmed piece start with the marker?
        if matches_marker(h, n, a, b) {
            proof {
                reveal_strlit("ag_session=");
                assert(cookie_marker().len() == 11);
                assert(h@.subrange(a as int, b as int).len() == b - a);
                assert(b - a >= 11);
            }
            let token = h.substring_char(a + 11, b).to_owned();
            proof {
                let piece = h@.subrange(pos as int, semi as int);
                let t = trim_blanks(piece);
                assert(t.subrange(cookie_marker().len() as int, t.len() as int) =~= h@.subrange(
                    a + 11,
                    b as int,
                ));
                lemma_piece_unfold(h@, pos as int);
            }
            return Some(token);
        }
        proof {
            lemma_piece_unfold(h@, pos as int);
        }
        if semi >= n {
            return None;
        }
        pos = semi + 1;
    }
}

/// True when the character is a blank trimmed from cookie pieces.
fn is_blank_char(c: char) -> (r: bool)
    ensures
        r == is_cookie_blank(c),
{
    c == ' ' || c == '\t'
}

/// The trimmed piece `h[a .. b]` starts with the cookie marker.
fn matches_marker(h: &str, n: usize, a: usize, b: usize) -> (r: bool)
    requires
        n == h@.len(),
        a <= b <= n,
    ensures
        r == has_prefix(h@.subrange(a as int, b as int), cookie_marker()),
{
    let marker = "ag_session=";
    proof {
        reveal_strlit("ag_session=");
    }
    if b - a < 11 {
        return false;
    }
    let mut k: usize = 0;
    while k < 11
        invariant
            k <= 11,
            n == h@.len(),
            a + 11 <= b <= n,
            marker@ == cookie_marker(),
            marker@.len() == 11,
            forall|t: int| 0 <= t < k ==> h@[a + t] == cookie_marker()[t],
        decreases 11 - k,
    {
        if h.get_char(a + k) != marker.get_char(k) {
            proof {
                let piece = h@.subrange(a as int, b as int);
                assert(piece[k as int] == h@[a + k]);
            }
            return false;
        }
        k += 1;
    }
    proof {
        let piece = h@.subrange(a as int, b as int);
        assert forall|t: int| 0 <= t < 11 implies piece.subrange(0, 11)[t] == cookie_marker()[t] by {
            assert(piece[t] == h@[a + t]);
        }
        assert(piece.subrange(0, 11) =~= cookie_marker());
    }
    true
}

/// One unfolding step of the extraction: the result over the suffix at
/// `pos` is decided by its first piece, and otherwise equals the result
/// over the suffix past the next semicolon.
proof fn lemma_piece_unfold(s: Seq<char>, pos: int)
    requires
        0 <= pos <= s.len(),
    ensures
        ({
            let rem = s.subrange(pos, s.len() as int);
            let semi = semi_or_end(s, pos);
            let piece = s.subrange(pos, semi);
            let t = trim_blanks(piece);
            &&& (has_prefix(t, cookie_marker()) ==> session_from_pieces(split_semis(rem)) == Some(
                t.subrange(cookie_marker().len() as int, t.len() as int),
            ))
            &&& (!has_prefix(t, cookie_marker()) && semi < s.len() ==> session_from_pieces(
                split_semis(rem),
            ) == session_from_pieces(split_semis(s.subrange(semi + 1, s.len() as int))))
            &&& (!has_prefix(t, cookie_marker()) && semi == s.len() ==> session_from_pieces(
                split_semis(rem),
            ) is None)
        }),
{
    let rem = s.subrange(pos, s.len() as int);
    let semi = semi_or_end(s, pos);
    lemma_semi_or_end_props(s, pos);
    lemma_semi_or_end_shift(s, pos);
    let piece = s.subrange(pos, semi);
    let segs = split_semis(rem);
    if semi < s.len() {
        assert(0 <= semi - pos < rem.len());
        assert(rem.subrange(0, semi - pos) =~= piece);
        assert(rem.subrange(semi - pos + 1, rem.len() as int) =~= s.subrange(
            semi + 1,
            s.len() as int,
        ));
        assert(segs == seq![piece] + split_semis(s.subrange(semi + 1, s.len() as int)));
        assert(segs[0] == piece);
        assert(segs.drop_first() =~= split_semis(s.subrange(semi + 1, s.len() as int)));
    } else {
        assert(semi_or_end(rem, 0) == rem.len() as int);
        assert(segs == seq![rem]);
        assert(rem =~= piece);
        assert(segs[0] == piece);
        assert(segs.drop_first() =~= Seq::<Seq<char>>::empty());
    }
    assert(session_from_pieces(Seq::<Seq<char>>::empty()) is None);
    let t = trim_blanks(piece);
    if has_prefix(t, cookie_marker()) {
        assert(session_from_pieces(segs) == Some(
            t.subrange(cookie_marker().len() as int, t.len() as int),
        ));
    } else {
        assert(session_from_pieces(segs) == session_from_pieces(segs.drop_first()));
    }
}

} // verus!
