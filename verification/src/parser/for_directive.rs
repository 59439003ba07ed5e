//! The `each` attribute of a `<for>` directive: `item in collection`.
use vstd::prelude::*;
use super::error::ParserError;
use crate::text::{char_is_whitespace, chars_to_string, is_whitespace_char, push_str, str_chars};

verus! {

/// Splitting `s` at Unicode whitespace: the words completed so far and the
/// word in progress.
pub open spec fn split_state(s: Seq<char>) -> (Seq<Seq<char>>, Seq<char>)
    decreases s.len(),
{
    if s.len() == 0 {
        (Seq::empty(), Seq::empty())
    } else {
        let (done, cur) = split_state(s.drop_last());
        let c = s.last();
        if char_is_whitespace(c) {
            if cur.len() > 0 {
                (done.push(cur), Seq::empty())
            } else {
                (done, cur)
            }
        } else {
            (done, cur.push(c))
        }
    }
}

/// The words of `s`: its maximal runs of characters that are not Unicode
/// whitespace, in order (as `str::split_whitespace`).
pub open spec fn words(s: Seq<char>) -> Seq<Seq<char>> {
    let (done, cur) = split_state(s);
    if cur.len() > 0 {
        done.push(cur)
    } else {
        done
    }
}

/// A character allowed in the item and collection names of a loop: an ASCII
/// letter or digit, `_`, `-` or `.`.
pub open spec fn loop_name_char(c: char) -> bool {
    ('a' <= c && c <= 'z') || ('A' <= c && c <= 'Z') || ('0' <= c && c <= '9') || c == '_' || c == '-' || c == '.'
}

/// Every character of `w` is allowed in a loop name.
pub open spec fn loop_name(w: Seq<char>) -> bool {
    forall|i: int| 0 <= i < w.len() ==> loop_name_char(#[trigger] w[i])
}

/// The item and collection of a `<for>` directive's `each` attribute, or
/// the error message: the attribute must be present and be three words,
/// `item in collection`, whose first and last are loop names.
pub open spec fn spec_for_each(each: Option<Seq<char>>) -> Result<(Seq<char>, Seq<char>), Seq<char>> {
    match each {
        None => Err("Missing 'each' attribute on <for>"@),
        Some(e) => {
            let w = words(e);
            if w.len() != 3 || w[1] != "in"@ {
                Err("Invalid for each: "@ + e)
            } else if !loop_name(w[0]) || !loop_name(w[2]) {
                Err("Invalid identifier in for each: "@ + e)
            } else {
                Ok((w[0], w[2]))
            }
        },
    }
}

/// The words of a string (see [`words`]).
fn split_words(s: &[char]) -> (r: Vec<Vec<char>>)
    ensures
        r@.map_values(|w: Vec<char>| w@) == words(s@),
{
    let mut done: Vec<Vec<char>> = Vec::new();
    let mut cur: Vec<char> = Vec::new();
    let mut i: usize = 0;
    while i < s.len()
        invariant
            0 <= i <= s@.len(),
            (done@.map_values(|w: Vec<char>| w@), cur@) == split_state(s@.take(i as int)),
        decreases s@.len() - i,
    {
        let c = s[i];
        let ghost prev = done@.map_values(|w: Vec<char>| w@);
        assert(s@.take(i + 1).drop_last() =~= s@.take(i as int));
        assert(s@.take(i + 1).last() == c);
        if is_whitespace_char(c) {
            if cur.len() > 0 {
                let w = cur;
                cur = Vec::new();
                done.push(w);
                assert(done@.map_values(|w: Vec<char>| w@) =~= prev.push(w@));
            }
        } else {
            cur.push(c);
        }
        i = i + 1;
    }
    assert(s@.take(s@.len() as int) =~= s@);
    if cur.len() > 0 {
        let ghost prev = done@.map_values(|w: Vec<char>| w@);
        let w = cur;
        done.push(w);
        assert(done@.map_values(|w: Vec<char>| w@) =~= prev.push(w@));
    }
    done
}

fn is_loop_name(w: &Vec<char>) -> (r: bool)
    ensures
        r == loop_name(w@),
{
    let mut i: usize = 0;
    while i < w.len()
        invariant
            0 <= i <= w@.len(),
            forall|j: int| 0 <= j < i ==> loop_name_char(#[trigger] w@[j]),
        decreases w@.len() - i,
    {
        let c = w[i];
        if !(('a' <= c && c <= 'z') || ('A' <= c && c <= 'Z') || ('0' <= c && c <= '9') || c == '_' || c == '-'
            || c == '.') {
            assert(!loop_name_char(w@[i as int]));
            return false;
        }
        i = i + 1;
    }
    true
}

fn directive_error(prefix: &str, each: &str) -> (r: ParserError)
    ensures
        r matches ParserError::Directive(m) && m@ == prefix@ + each@,
{
    let mut v: Vec<char> = Vec::new();
    push_str(&mut v, prefix);
    push_str(&mut v, each);
    ParserError::Directive(chars_to_string(v.as_slice()))
}

/// The item and collection names of a `<for>` directive's `each`
/// attribute (`None`: the attribute is missing), or the directive error
/// (see [`spec_for_each`]).
pub fn parse_for_each(each: Option<&str>) -> (r: Result<(String, String), ParserError>)
    ensures
        match spec_for_each(
            match each {
                Some(e) => Some(e@),
                None => None,
            },
        ) {
            Ok((item, collection)) => r matches Ok((a, b)) && a@ == item && b@ == collection,
            Err(m) => r matches Err(ParserError::Directive(s)) && s@ == m,
        },
{
    let each = match each {
        Some(e) => e,
        None => {
            return Err(ParserError::Directive(String::from_str("Missing 'each' attribute on <for>")));
        },
    };
    let chars = str_chars(each);
    let parts = split_words(chars.as_slice());
    let ghost w = words(each@);
    assert(parts@.len() == w.len());
    let in_word = str_chars("in");
    if parts.len() != 3 || !crate::text::chars_eq(parts[1].as_slice(), in_word.as_slice()) {
        proof {
            if parts@.len() == 3 {
                assert(w[1] == parts@[1]@);
            }
        }
        return Err(directive_error("Invalid for each: ", each));
    }
    assert(w[0] == parts@[0]@ && w[1] == parts@[1]@ && w[2] == parts@[2]@);
    if !is_loop_name(&parts[0]) || !is_loop_name(&parts[2]) {
        return Err(directive_error("Invalid identifier in for each: ", each));
    }
    Ok((chars_to_string(parts[0].as_slice()), chars_to_string(parts[2].as_slice())))
}


proof fn lemma_split_state_nonempty(s: Seq<char>)
    ensures
        forall|k: int| 0 <= k < split_state(s).0.len() ==> (#[trigger] split_state(s).0[k]).len() > 0,
    decreases s.len(),
{
    if s.len() > 0 {
        lemma_split_state_nonempty(s.drop_last());
        let (done, cur) = split_state(s.drop_last());
        let c = s.last();
        if char_is_whitespace(c) && cur.len() > 0 {
            assert forall|k: int| 0 <= k < done.push(cur).len() implies (#[trigger] done.push(cur)[k]).len() > 0 by {
                if k < done.len() {
                    assert(done.push(cur)[k] == done[k]);
                }
            }
        }
    }
}

/// Every word is non-empty.
proof fn lemma_words_nonempty(s: Seq<char>)
    ensures
        forall|k: int| 0 <= k < words(s).len() ==> (#[trigger] words(s)[k]).len() > 0,
{
    lemma_split_state_nonempty(s);
}

/// The item and collection of a loop are non-empty names made of the
/// allowed characters.
pub proof fn lemma_for_each_names(each: Seq<char>)
    ensures
        spec_for_each(Some(each)) matches Ok((item, collection)) ==> item.len() > 0 && collection.len() > 0
            && loop_name(item) && loop_name(collection),
{
    lemma_words_nonempty(each);
    if words(each).len() == 3 {
        assert(words(each)[0].len() > 0);
        assert(words(each)[2].len() > 0);
    }
}

proof fn lemma_split_state_word(p: Seq<char>, w: Seq<char>)
    requires
        forall|i: int| 0 <= i < w.len() ==> !char_is_whitespace(#[trigger] w[i]),
    ensures
        split_state(p + w) == (split_state(p).0, split_state(p).1 + w),
    decreases w.len(),
{
    if w.len() == 0 {
        assert(p + w =~= p);
        assert(split_state(p).1 + w =~= split_state(p).1);
    } else {
        lemma_split_state_word(p, w.drop_last());
        assert((p + w).drop_last() =~= p + w.drop_last());
        assert((p + w).last() == w.last());
        assert(split_state(p).1 + w.drop_last() + seq![w.last()] =~= split_state(p).1 + w);
    }
}

proof fn lemma_split_state_space(p: Seq<char>)
    ensures
        split_state(p + " "@) == if split_state(p).1.len() > 0 {
            (split_state(p).0.push(split_state(p).1), Seq::<char>::empty())
        } else {
            split_state(p)
        },
{
    reveal_strlit(" ");
    assert((p + " "@).drop_last() =~= p);
    assert((p + " "@).last() == ' ');
}

/// `item word collection`, three words of characters other than
/// whitespace separated by single spaces, is a loop over `collection`
/// naming each element `item` exactly when the middle word is `in` and both
/// names are made of ASCII letters (upper or lower case), digits, `_`, `-`
/// and `.`. A middle word other than `in` is the invalid for each error;
/// a name with another character is the invalid identifier error.
pub proof fn lemma_each_item_in_collection(item: Seq<char>, word: Seq<char>, coll: Seq<char>)
    requires
        item.len() > 0,
        word.len() > 0,
        coll.len() > 0,
        forall|i: int| 0 <= i < item.len() ==> !char_is_whitespace(#[trigger] item[i]),
        forall|i: int| 0 <= i < word.len() ==> !char_is_whitespace(#[trigger] word[i]),
        forall|i: int| 0 <= i < coll.len() ==> !char_is_whitespace(#[trigger] coll[i]),
    ensures
        spec_for_each(Some(item + " "@ + word + " "@ + coll)) == if word != "in"@ {
            Err::<(Seq<char>, Seq<char>), Seq<char>>("Invalid for each: "@ + (item + " "@ + word + " "@ + coll))
        } else if (forall|i: int| 0 <= i < item.len() ==> {
            let c = #[trigger] item[i];
            ('a' <= c && c <= 'z') || ('A' <= c && c <= 'Z') || ('0' <= c && c <= '9') || c == '_' || c == '-' || c == '.'
        }) && (forall|i: int| 0 <= i < coll.len() ==> {
            let c = #[trigger] coll[i];
            ('a' <= c && c <= 'z') || ('A' <= c && c <= 'Z') || ('0' <= c && c <= '9') || c == '_' || c == '-' || c == '.'
        }) {
            Ok::<(Seq<char>, Seq<char>), Seq<char>>((item, coll))
        } else {
            Err::<(Seq<char>, Seq<char>), Seq<char>>("Invalid identifier in for each: "@ + (item + " "@ + word + " "@ + coll))
        },
{
    reveal_strlit(" ");
    reveal_strlit("in");
    let e = item + " "@ + word + " "@ + coll;
    let empty = Seq::<char>::empty();
    assert(split_state(empty) == (Seq::<Seq<char>>::empty(), empty));
    lemma_split_state_word(empty, item);
    assert(split_state(item) == (Seq::<Seq<char>>::empty(), item)) by {
        assert(empty + item =~= item);
    }
    let a = item + " "@;
    lemma_split_state_space(item);
    assert(split_state(a) == (seq![item], empty)) by {
        assert(Seq::<Seq<char>>::empty().push(item) =~= seq![item]);
    }
    let b = a + word;
    lemma_split_state_word(a, word);
    assert(split_state(b) == (seq![item], word)) by {
        assert(empty + word =~= word);
    }
    let c = b + " "@;
    lemma_split_state_space(b);
    assert(split_state(c) == (seq![item, word], empty)) by {
        assert(seq![item].push(word) =~= seq![item, word]);
    }
    lemma_split_state_word(c, coll);
    assert(split_state(e) == (seq![item, word], coll)) by {
        assert(empty + coll =~= coll);
    }
    assert(words(e) =~= seq![item, word, coll]);
    assert(loop_name(item) == (forall|i: int| 0 <= i < item.len() ==> {
        let c = #[trigger] item[i];
        ('a' <= c && c <= 'z') || ('A' <= c && c <= 'Z') || ('0' <= c && c <= '9') || c == '_' || c == '-' || c == '.'
    }));
    assert(loop_name(coll) == (forall|i: int| 0 <= i < coll.len() ==> {
        let c = #[trigger] coll[i];
        ('a' <= c && c <= 'z') || ('A' <= c && c <= 'Z') || ('0' <= c && c <= '9') || c == '_' || c == '-' || c == '.'
    }));
}

} // verus!
