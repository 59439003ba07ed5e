//! Comments that may carry bindings: HTML comments such as
//! `<!--{{tokens}}-->` and CSS comments such as `/*{{{tokens.light}}}*/`.
//! The scans here find the comment text that goes to the handlebars
//! parser; everything else stays raw text.
use vstd::prelude::*;
use super::directive::{contains, starts_with, ends_with};
use super::fast::{push_range, spec_trim, trim};
use super::scan::{find_sub, find_sub_exec};
use crate::protocol::types::{frag_view, WebUiFragment};
use crate::protocol::web_ui_fragment::Fragment;
use crate::text::{chars_to_string, str_chars};

verus! {

// ── HTML comments ──────────────────────────────────────────────────────

/// The text between `<!--` and `-->` of an HTML comment; empty when the
/// content does not have both delimiters.
pub open spec fn comment_inner(content: Seq<char>) -> Seq<char> {
    if starts_with(content, "<!--"@) && ends_with(content.skip(4), "-->"@) {
        content.subrange(4, content.len() - 3)
    } else {
        Seq::empty()
    }
}

/// The trimmed inner text of an HTML comment when it holds a `{{`
/// expression, to be read by the handlebars parser; `None` when the comment
/// is kept as raw text.
pub open spec fn spec_comment_expression(content: Seq<char>) -> Option<Seq<char>> {
    let t = spec_trim(comment_inner(content));
    if contains(t, seq!['{', '{']) {
        Some(t)
    } else {
        None
    }
}

/// The trimmed inner text of an HTML comment holding a `{{` expression (see
/// [`spec_comment_expression`]), or `None` for a comment kept raw.
pub fn comment_expression(content: &str) -> (r: Option<String>)
    ensures
        match spec_comment_expression(content@) {
            Some(t) => r matches Some(s) && s@ == t,
            None => r is None,
        },
{
    let c = str_chars(content);
    let n = c.len();
    let open = str_chars("<!--");
    let close = str_chars("-->");
    proof {
        reveal_strlit("<!--");
        reveal_strlit("-->");
    }
    let mut inner: Vec<char> = Vec::new();
    if n >= 7 && c[0] == '<' && c[1] == '!' && c[2] == '-' && c[3] == '-' && c[n - 3] == '-' && c[n - 2] == '-'
        && c[n - 1] == '>' {
        push_range(&mut inner, c.as_slice(), 4, n - 3);
        proof {
            assert(c@.take(4) =~= open@);
            assert(c@.skip(4).skip(c@.skip(4).len() - 3) =~= close@);
        }
    } else {
        proof {
            if starts_with(c@, "<!--"@) && ends_with(c@.skip(4), "-->"@) {
                assert(c@.take(4)[0] == c@[0] && c@.take(4)[1] == c@[1] && c@.take(4)[2] == c@[2]
                    && c@.take(4)[3] == c@[3]);
                let tail = c@.skip(4).skip(c@.skip(4).len() - 3);
                assert(tail[0] == c@[n - 3] && tail[1] == c@[n - 2] && tail[2] == c@[n - 1]);
            }
        }
    }
    assert(inner@ =~= comment_inner(c@));
    let t = trim(inner.as_slice());
    let brace2 = ['{', '{'];
    assert(brace2@ =~= seq!['{', '{']);
    if super::scan::contains_exec(t.as_slice(), 0, t.len(), brace2.as_slice()) {
        Some(chars_to_string(t.as_slice()))
    } else {
        None
    }
}

/// Whether the fragments read from an HTML comment replace it: there is at
/// least one, and all are signals (otherwise the comment stays raw text).
pub fn comment_replaced_by(parsed: &[WebUiFragment]) -> (r: bool)
    ensures
        r == (parsed@.len() > 0 && forall|i: int| 0 <= i < parsed@.len() ==> frag_view(#[trigger] parsed@[i]) is Signal),
{
    if parsed.len() == 0 {
        return false;
    }
    let mut i: usize = 0;
    while i < parsed.len()
        invariant
            0 <= i <= parsed@.len(),
            forall|j: int| 0 <= j < i ==> frag_view(#[trigger] parsed@[j]) is Signal,
        decreases parsed@.len() - i,
    {
        match &parsed[i].fragment {
            Some(Fragment::Signal(_)) => {},
            _ => {
                assert(!(frag_view(parsed@[i as int]) is Signal));
                return false;
            },
        }
        i = i + 1;
    }
    true
}

// ── CSS comments ───────────────────────────────────────────────────────

/// A piece of CSS text: text outside comments, or a complete `/* ... */`
/// comment with its trimmed inner text.
#[derive(Debug)]
pub enum CssPiece {
    Text(String),
    Comment { text: String, inner: String },
}

/// The model of a [`CssPiece`].
pub enum CssPieceV {
    Text(Seq<char>),
    Comment { text: Seq<char>, inner: Seq<char> },
}

/// The model of a piece.
pub open spec fn css_piece_view(p: CssPiece) -> CssPieceV {
    match p {
        CssPiece::Text(t) => CssPieceV::Text(t@),
        CssPiece::Comment { text, inner } => CssPieceV::Comment { text: text@, inner: inner@ },
    }
}

/// The pieces of `css` from `pos` on: the text up to the next `/*`, the
/// comment up to the following `*/`, and so on; the rest is text where no
/// further comment opens or the last one is not closed.
pub open spec fn css_pieces(css: Seq<char>, pos: int) -> Seq<CssPieceV>
    decreases css.len() - pos,
{
    if pos < 0 || pos > css.len() {
        Seq::empty()
    } else {
        match find_sub(css, pos, css.len() as int, "/*"@) {
            None => seq![CssPieceV::Text(css.subrange(pos, css.len() as int))],
            Some(open) => match find_sub(css, open + 2, css.len() as int, "*/"@) {
                None => seq![CssPieceV::Text(css.subrange(pos, css.len() as int))],
                Some(close) => if pos < close + 2 <= css.len() && open <= close {
                    seq![
                        CssPieceV::Text(css.subrange(pos, open)),
                        CssPieceV::Comment {
                            text: css.subrange(open, close + 2),
                            inner: spec_trim(css.subrange(open + 2, close)),
                        },
                    ] + css_pieces(css, close + 2)
                } else {
                    Seq::empty()
                },
            },
        }
    }
}

proof fn lemma_find_sub_range(s: Seq<char>, from: int, hi: int, p: Seq<char>)
    ensures
        find_sub(s, from, hi, p) matches Some(a) ==> from <= a && a + p.len() <= hi && hi <= s.len(),
    decreases hi - from,
{
    if !(from < 0 || from >= hi || from + p.len() > hi || hi > s.len()) && s.subrange(from, from + p.len()) != p {
        lemma_find_sub_range(s, from + 1, hi, p);
    }
}

fn text_piece(s: &[char], a: usize, b: usize) -> (r: CssPiece)
    requires
        a <= b <= s@.len(),
    ensures
        css_piece_view(r) == CssPieceV::Text(s@.subrange(a as int, b as int)),
{
    let mut v: Vec<char> = Vec::new();
    push_range(&mut v, s, a, b);
    CssPiece::Text(chars_to_string(v.as_slice()))
}

/// Split CSS text into text and comments (see [`css_pieces`]); the comments
/// are what may stand for a signal.
pub fn split_css_comments(css: &str) -> (r: Vec<CssPiece>)
    ensures
        r@.map_values(|p: CssPiece| css_piece_view(p)) == css_pieces(css@, 0),
{
    let s = str_chars(css);
    let opener = str_chars("/*");
    let closer = str_chars("*/");
    proof {
        reveal_strlit("/*");
        reveal_strlit("*/");
    }
    let mut out: Vec<CssPiece> = Vec::new();
    let mut pos: usize = 0;
    loop
        invariant
            s@ == css@,
            opener@ == "/*"@,
            closer@ == "*/"@,
            opener@.len() == 2,
            closer@.len() == 2,
            pos <= s@.len(),
            out@.map_values(|p: CssPiece| css_piece_view(p)) + css_pieces(s@, pos as int) == css_pieces(s@, 0),
        decreases s@.len() - pos,
    {
        let ghost prev = out@.map_values(|p: CssPiece| css_piece_view(p));
        proof {
            lemma_find_sub_range(s@, pos as int, s@.len() as int, opener@);
        }
        let open = match find_sub_exec(s.as_slice(), pos, s.len(), opener.as_slice()) {
            Some(o) => o,
            None => {
                out.push(text_piece(s.as_slice(), pos, s.len()));
                assert(out@.map_values(|p: CssPiece| css_piece_view(p)) =~= prev + css_pieces(s@, pos as int));
                return out;
            },
        };
        proof {
            lemma_find_sub_range(s@, open + 2, s@.len() as int, closer@);
        }
        let close = match find_sub_exec(s.as_slice(), open + 2, s.len(), closer.as_slice()) {
            Some(c) => c,
            None => {
                out.push(text_piece(s.as_slice(), pos, s.len()));
                assert(out@.map_values(|p: CssPiece| css_piece_view(p)) =~= prev + css_pieces(s@, pos as int));
                return out;
            },
        };
        out.push(text_piece(s.as_slice(), pos, open));
        let mut text: Vec<char> = Vec::new();
        push_range(&mut text, s.as_slice(), open, close + 2);
        let mut inner_raw: Vec<char> = Vec::new();
        push_range(&mut inner_raw, s.as_slice(), open + 2, close);
        let inner = trim(inner_raw.as_slice());
        out.push(CssPiece::Comment { text: chars_to_string(text.as_slice()), inner: chars_to_string(inner.as_slice()) });
        proof {
            let pieces = css_pieces(s@, pos as int);
            let rest = css_pieces(s@, close + 2);
            assert(out@.map_values(|p: CssPiece| css_piece_view(p)) =~= prev + seq![
                CssPieceV::Text(s@.subrange(pos as int, open as int)),
                CssPieceV::Comment {
                    text: s@.subrange(open as int, close + 2),
                    inner: spec_trim(s@.subrange(open + 2, close as int)),
                },
            ]);
            assert(prev + pieces =~= out@.map_values(|p: CssPiece| css_piece_view(p)) + rest);
        }
        pos = close + 2;
    }
}


/// The text a piece stands for.
pub open spec fn piece_text(p: CssPieceV) -> Seq<char> {
    match p {
        CssPieceV::Text(t) => t,
        CssPieceV::Comment { text, .. } => text,
    }
}

/// The texts of the pieces, one after another.
pub open spec fn joined(ps: Seq<CssPieceV>) -> Seq<char>
    decreases ps.len(),
{
    if ps.len() == 0 {
        Seq::empty()
    } else {
        piece_text(ps[0]) + joined(ps.drop_first())
    }
}

proof fn lemma_pieces_join_from(css: Seq<char>, pos: int)
    requires
        0 <= pos <= css.len(),
    ensures
        joined(css_pieces(css, pos)) == css.subrange(pos, css.len() as int),
    decreases css.len() - pos,
{
    let n = css.len() as int;
    lemma_find_sub_range(css, pos, n, "/*"@);
    match find_sub(css, pos, n, "/*"@) {
        None => {
            let t = css.subrange(pos, n);
            assert(css_pieces(css, pos) == seq![CssPieceV::Text(t)]);
            assert(seq![CssPieceV::Text(t)].drop_first() =~= Seq::<CssPieceV>::empty());
            assert(t + Seq::<char>::empty() =~= t);
            assert(joined(Seq::<CssPieceV>::empty()) == Seq::<char>::empty());
            assert(seq![CssPieceV::Text(t)][0] == CssPieceV::Text(t));
            assert(joined(css_pieces(css, pos)) == t);
        },
        Some(open) => {
            lemma_find_sub_range(css, open + 2, n, "*/"@);
            match find_sub(css, open + 2, n, "*/"@) {
                None => {
                    let t = css.subrange(pos, n);
                    assert(css_pieces(css, pos) == seq![CssPieceV::Text(t)]);
                    assert(seq![CssPieceV::Text(t)].drop_first() =~= Seq::<CssPieceV>::empty());
                    assert(t + Seq::<char>::empty() =~= t);
                    assert(joined(Seq::<CssPieceV>::empty()) == Seq::<char>::empty());
                    assert(seq![CssPieceV::Text(t)][0] == CssPieceV::Text(t));
                    assert(joined(css_pieces(css, pos)) == t);
                },
                Some(close) => {
                    reveal_strlit("/*");
                    reveal_strlit("*/");
                    lemma_pieces_join_from(css, close + 2);
                    let a = CssPieceV::Text(css.subrange(pos, open));
                    let b = CssPieceV::Comment {
                        text: css.subrange(open, close + 2),
                        inner: spec_trim(css.subrange(open + 2, close)),
                    };
                    let rest = css_pieces(css, close + 2);
                    let ps = seq![a, b] + rest;
                    assert(css_pieces(css, pos) == ps);
                    assert(ps[0] == a);
                    assert(ps.drop_first() =~= seq![b] + rest);
                    assert((seq![b] + rest)[0] == b);
                    assert((seq![b] + rest).drop_first() =~= rest);
                    assert(joined(seq![b] + rest) == css.subrange(open, close + 2) + joined(rest));
                    assert(joined(ps) == css.subrange(pos, open) + joined(seq![b] + rest));
                    assert(joined(css_pieces(css, pos)) == css.subrange(pos, n));
                    assert(css.subrange(pos, open) + (css.subrange(open, close + 2) + css.subrange(close + 2, n))
                        =~= css.subrange(pos, n));
                },
            }
        },
    }
}

/// Splitting loses nothing: the pieces' texts, one after another, are the
/// CSS text.
pub proof fn lemma_css_pieces_join(css: Seq<char>)
    ensures
        joined(css_pieces(css, 0)) == css,
{
    lemma_pieces_join_from(css, 0);
    assert(css.subrange(0, css.len() as int) =~= css);
}

} // verus!
