//! The keyword router's text handling: the searchable text of a tool and
//! the tokens of a text.

use vstd::prelude::*;
use crate::protocol::RegisteredTool;
use crate::router::{
    description_of, property_models, push_word, tool_properties, tool_properties_of, with_optional, with_word,
    PropertyView, SchemaProperty,
};
use crate::text::{
    alphanumeric, chars_eq, is_alphanumeric, lowercase_of, push_char, str_chars, to_lowercase,
    StringExecFns,
};

verus! {

/// Words too common to tell tools apart.
pub open spec fn stopwords() -> Seq<Seq<char>> {
    seq![
        "a"@, "an"@, "the"@, "is"@, "are"@, "was"@, "were"@, "be"@, "been"@, "being"@, "have"@,
        "has"@, "had"@, "do"@, "does"@, "did"@, "will"@, "would"@, "could"@, "should"@, "may"@,
        "might"@, "can"@, "shall"@, "to"@, "of"@, "in"@, "for"@, "on"@, "with"@, "at"@, "by"@,
        "from"@, "as"@, "into"@, "through"@, "during"@, "before"@, "after"@, "above"@, "below"@,
        "between"@, "out"@, "off"@, "over"@, "under"@, "again"@, "further"@, "then"@, "once"@,
        "here"@, "there"@, "when"@, "where"@, "why"@, "how"@, "all"@, "both"@, "each"@, "few"@,
        "more"@, "most"@, "other"@, "some"@, "such"@, "no"@, "not"@, "only"@, "own"@, "same"@,
        "so"@, "than"@, "too"@, "very"@, "just"@, "or"@, "and"@, "but"@, "if"@, "this"@, "that"@,
        "these"@, "those"@, "it"@, "its"@,
    ]
}

/// Whether a character separates words: anything but a letter, a digit or
/// an underscore.
pub open spec fn is_separator(c: char) -> bool {
    !alphanumeric(c) && c != '_'
}

/// The pieces of `s` between separators, empty ones included; there is
/// always at least one.
pub open spec fn pieces(s: Seq<char>) -> Seq<Seq<char>>
    decreases s.len(),
{
    if s.len() == 0 {
        seq![Seq::empty()]
    } else {
        let p = pieces(s.drop_last());
        if is_separator(s.last()) {
            p.push(Seq::empty())
        } else {
            p.update(p.len() - 1, p.last().push(s.last()))
        }
    }
}

/// Whether a word takes more than one byte in UTF-8: it has two characters
/// or more, or one outside ASCII (every character takes at least one byte,
/// and those outside ASCII at least two).
pub open spec fn wider_than_a_byte(w: Seq<char>) -> bool {
    w.len() > 1 || (w.len() == 1 && w[0] as u32 >= 0x80)
}

/// Whether a piece is kept as a token: more than one byte in UTF-8, and no
/// stopword.
pub open spec fn keeps(w: Seq<char>) -> bool {
    wider_than_a_byte(w) && !stopwords().contains(w)
}

/// The pieces that are kept as tokens, in order.
pub open spec fn kept(ws: Seq<Seq<char>>) -> Seq<Seq<char>>
    decreases ws.len(),
{
    if ws.len() == 0 {
        Seq::empty()
    } else if keeps(ws.last()) {
        kept(ws.drop_last()).push(ws.last())
    } else {
        kept(ws.drop_last())
    }
}

/// The tokens of a text: its lowercase form split at separators, keeping
/// the pieces longer than one byte that are not stopwords.
pub open spec fn tokens_of(text: Seq<char>) -> Seq<Seq<char>> {
    kept(pieces(lowercase_of(text)))
}

/// The characters of each string.
pub open spec fn texts(v: Seq<String>) -> Seq<Seq<char>> {
    v.map_values(|s: String| s@)
}

fn stopword_list() -> (r: [&'static str; 85])
    ensures
        r@.map_values(|w: &str| w@) == stopwords(),
{
    let r: [&'static str; 85] = [
        "a", "an", "the", "is", "are", "was", "were", "be", "been", "being", "have", "has", "had",
        "do", "does", "did", "will", "would", "could", "should", "may", "might", "can", "shall",
        "to", "of", "in", "for", "on", "with", "at", "by", "from", "as", "into", "through",
        "during", "before", "after", "above", "below", "between", "out", "off", "over", "under",
        "again", "further", "then", "once", "here", "there", "when", "where", "why", "how", "all",
        "both", "each", "few", "more", "most", "other", "some", "such", "no", "not", "only", "own",
        "same", "so", "than", "too", "very", "just", "or", "and", "but", "if", "this", "that",
        "these", "those", "it", "its",
    ];
    proof {
        assert(r@.map_values(|w: &str| w@) =~= stopwords());
    }
    r
}

/// Whether a word is a stopword.
pub fn is_stopword(w: &Vec<char>) -> (r: bool)
    ensures
        r == stopwords().contains(w@),
{
    let list = stopword_list();
    let ghost sw = stopwords();
    let mut i: usize = 0;
    while i < 85
        invariant
            i <= 85,
            list@.map_values(|x: &str| x@) == sw,
            sw == stopwords(),
            forall|j: int| 0 <= j < i ==> sw[j] != w@,
        decreases 85 - i,
    {
        let candidate = str_chars(list[i]);
        if chars_eq(&candidate, w) {
            proof {
                assert(sw[i as int] == w@);
            }
            return true;
        }
        i = i + 1;
    }
    false
}

/// Appends the word to the tokens if it is kept, and empties it.
fn finish_word(tokens: &mut Vec<String>, word: &mut Vec<char>)
    ensures
        texts(final(tokens)@) == if keeps(old(word)@) {
            texts(old(tokens)@).push(old(word)@)
        } else {
            texts(old(tokens)@)
        },
        final(word)@ == Seq::<char>::empty(),
{
    let long_enough = word.len() > 1 || (word.len() == 1 && word[0] as u32 >= 0x80);
    if long_enough && !is_stopword(word) {
        let s = crate::text::string_from_chars(word);
        let ghost before = tokens@;
        tokens.push(s);
        proof {
            assert(texts(tokens@) =~= texts(before).push(old(word)@));
        }
    }
    *word = Vec::new();
}

/// Splits a text into lowercase tokens, leaving out one-byte pieces and
/// stopwords.
pub fn tokenize(text: &str) -> (r: Vec<String>)
    ensures
        texts(r@) == tokens_of(text@),
{
    let lower = to_lowercase(text);
    split_tokens(lower.as_str())
}

/// Splits an already lowercased text into tokens at separators, leaving
/// out one-byte pieces and stopwords.
pub fn split_tokens(lower: &str) -> (r: Vec<String>)
    ensures
        texts(r@) == kept(pieces(lower@)),
{
    let chars = str_chars(lower);
    let ghost all = chars@;
    let mut tokens: Vec<String> = Vec::new();
    let mut word: Vec<char> = Vec::new();
    let mut i: usize = 0;
    while i < chars.len()
        invariant
            i <= chars.len(),
            all == chars@,
            pieces(all.take(i as int)).len() >= 1,
            texts(tokens@) == kept(pieces(all.take(i as int)).drop_last()),
            word@ == pieces(all.take(i as int)).last(),
        decreases chars.len() - i,
    {
        let c = chars[i];
        proof {
            assert(all.take(i + 1).drop_last() =~= all.take(i as int));
            lemma_pieces_nonempty(all.take(i + 1));
        }
        let ghost p = pieces(all.take(i as int));
        if !is_alphanumeric(c) && c != '_' {
            finish_word(&mut tokens, &mut word);
            proof {
                assert(pieces(all.take(i + 1)) == p.push(Seq::empty()));
                assert(p.push(Seq::<char>::empty()).drop_last() =~= p);
                assert(p.drop_last().push(p.last()) =~= p);
            }
        } else {
            push_char_vec(&mut word, c);
            proof {
                let q = p.update(p.len() - 1, p.last().push(c));
                assert(pieces(all.take(i + 1)) == q);
                assert(q.drop_last() =~= p.drop_last());
            }
        }
        i = i + 1;
    }
    proof {
        assert(all.take(i as int) =~= all);
        let p = pieces(all);
        assert(p.drop_last().push(p.last()) =~= p);
    }
    finish_word(&mut tokens, &mut word);
    tokens
}

/// The property names, each after a space.
pub open spec fn names_text(props: Seq<PropertyView>) -> Seq<char>
    decreases props.len(),
{
    if props.len() == 0 {
        Seq::empty()
    } else {
        with_word(names_text(props.drop_last()), props.last().name)
    }
}

/// The property descriptions there are, each after a space.
pub open spec fn descriptions_text(props: Seq<PropertyView>) -> Seq<char>
    decreases props.len(),
{
    if props.len() == 0 {
        Seq::empty()
    } else {
        with_optional(descriptions_text(props.drop_last()), props.last().description)
    }
}

/// A tool's searchable text: its name and server, its description, then
/// the names of its parameters and their descriptions.
pub open spec fn keyword_text(
    name: Seq<char>,
    server: Seq<char>,
    description: Option<Seq<char>>,
    props: Seq<PropertyView>,
) -> Seq<char> {
    with_optional(with_word(name, server), description) + names_text(props) + descriptions_text(
        props,
    )
}

/// Assembles a tool's searchable text from its parts.
pub fn keyword_search_text(
    name: &str,
    server: &str,
    description: Option<&str>,
    props: &Vec<SchemaProperty>,
) -> (r: String)
    ensures
        r@ == keyword_text(
            name@,
            server@,
            match description {
                Some(d) => Some(d@),
                None => None,
            },
            property_models(props@),
        ),
{
    let ghost pv = property_models(props@);
    let mut text = String::from_str(name);
    push_word(&mut text, server);
    if let Some(d) = description {
        push_word(&mut text, d);
    }
    let ghost head = text@;
    let mut i: usize = 0;
    while i < props.len()
        invariant
            i <= props.len(),
            pv == property_models(props@),
            text@ == head + names_text(pv.take(i as int)),
        decreases props.len() - i,
    {
        push_word(&mut text, props[i].name.as_str());
        proof {
            assert(pv.take(i + 1).drop_last() =~= pv.take(i as int));
            assert(text@ =~= head + names_text(pv.take(i + 1)));
        }
        i = i + 1;
    }
    proof {
        assert(pv.take(i as int) =~= pv);
    }
    let ghost mid = text@;
    let mut i: usize = 0;
    while i < props.len()
        invariant
            i <= props.len(),
            pv == property_models(props@),
            text@ == mid + descriptions_text(pv.take(i as int)),
        decreases props.len() - i,
    {
        if let Some(d) = &props[i].description {
            push_word(&mut text, d.as_str());
        }
        proof {
            assert(pv.take(i + 1).drop_last() =~= pv.take(i as int));
            assert(text@ =~= mid + descriptions_text(pv.take(i + 1)));
        }
        i = i + 1;
    }
    proof {
        assert(pv.take(i as int) =~= pv);
        assert(text@ =~= keyword_text(name@, server@, match description {
            Some(d) => Some(d@),
            None => None,
        }, pv));
    }
    text
}

/// A tool's searchable text for keyword matching.
pub fn build_tool_text(tool: &RegisteredTool) -> (r: String)
    ensures
        r@ == keyword_text(
            tool.definition.name@,
            tool.server_name@,
            description_of(*tool),
            tool_properties_of(*tool),
        ),
{
    let props = tool_properties(tool);
    let description = match &tool.definition.description {
        Some(d) => Some(d.as_str()),
        None => None,
    };
    let r = keyword_search_text(tool.definition.name.as_str(), tool.server_name.as_str(), description, &props);
    r
}

proof fn lemma_pieces_nonempty(s: Seq<char>)
    ensures
        pieces(s).len() >= 1,
    decreases s.len(),
{
    if s.len() > 0 {
        lemma_pieces_nonempty(s.drop_last());
    }
}

fn push_char_vec(v: &mut Vec<char>, c: char)
    ensures
        final(v)@ == old(v)@.push(c),
{
    v.push(c);
}

} // verus!

verus! {

proof fn lemma_pieces_have_no_separator(s: Seq<char>)
    ensures
        forall|i: int, j: int|
            0 <= i < pieces(s).len() && 0 <= j < pieces(s)[i].len() ==> !is_separator(
                #[trigger] pieces(s)[i][j],
            ),
    decreases s.len(),
{
    if s.len() > 0 {
        lemma_pieces_have_no_separator(s.drop_last());
        lemma_pieces_nonempty(s.drop_last());
        let p = pieces(s.drop_last());
        if !is_separator(s.last()) {
            let q = p.update(p.len() - 1, p.last().push(s.last()));
            assert forall|i: int, j: int| 0 <= i < q.len() && 0 <= j < q[i].len() implies !is_separator(
                #[trigger] q[i][j],
            ) by {
                if i == p.len() - 1 && j < p.last().len() {
                    assert(q[i][j] == p[i][j]);
                } else if i < p.len() - 1 {
                    assert(q[i][j] == p[i][j]);
                }
            }
        } else {
            let q = p.push(Seq::<char>::empty());
            assert forall|i: int, j: int| 0 <= i < q.len() && 0 <= j < q[i].len() implies !is_separator(
                #[trigger] q[i][j],
            ) by {
                assert(q[i][j] == p[i][j]);
            }
        }
    }
}

proof fn lemma_kept_from(ws: Seq<Seq<char>>)
    ensures
        forall|i: int| 0 <= i < kept(ws).len() ==> keeps(#[trigger] kept(ws)[i]) && ws.contains(
            kept(ws)[i],
        ),
    decreases ws.len(),
{
    if ws.len() > 0 {
        lemma_kept_from(ws.drop_last());
        let k = kept(ws);
        assert forall|i: int| 0 <= i < k.len() implies keeps(#[trigger] k[i]) && ws.contains(k[i]) by {
            if i < kept(ws.drop_last()).len() {
                let w = kept(ws.drop_last())[i];
                assert(k[i] == w);
                let j = choose|j: int| 0 <= j < ws.drop_last().len() && ws.drop_last()[j] == w;
                assert(ws[j] == w);
            } else {
                assert(k[i] == ws.last());
                assert(ws[ws.len() - 1] == ws.last());
            }
        }
    }
}

/// Every token is a piece of the lowercase text with no separator in it,
/// takes more than one byte, and is no stopword.
pub proof fn law_tokens_are_clean_words(text: Seq<char>)
    ensures
        forall|i: int|
            0 <= i < tokens_of(text).len() ==> {
                let t = #[trigger] tokens_of(text)[i];
                &&& wider_than_a_byte(t)
                &&& !stopwords().contains(t)
                &&& forall|j: int| 0 <= j < t.len() ==> !is_separator(#[trigger] t[j])
            },
{
    let ws = pieces(lowercase_of(text));
    lemma_kept_from(ws);
    lemma_pieces_have_no_separator(lowercase_of(text));
    assert forall|i: int| 0 <= i < tokens_of(text).len() implies {
        let t = #[trigger] tokens_of(text)[i];
        &&& wider_than_a_byte(t)
        &&& !stopwords().contains(t)
        &&& forall|j: int| 0 <= j < t.len() ==> !is_separator(#[trigger] t[j])
    } by {
        let t = tokens_of(text)[i];
        assert(keeps(t));
        let k = choose|k: int| 0 <= k < ws.len() && ws[k] == t;
        assert forall|j: int| 0 <= j < t.len() implies !is_separator(#[trigger] t[j]) by {
            assert(ws[k][j] == t[j]);
        }
    }
}

} // verus!
