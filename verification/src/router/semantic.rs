//! The semantic router's text handling: splitting identifiers into words,
//! the searchable text of a tool, and the hash behind its embeddings.

use vstd::prelude::*;
use vstd::utf8::encode_utf8;
use crate::protocol::RegisteredTool;
use crate::router::{
    description_of, property_models, push_word, tool_properties, tool_properties_of, with_optional, with_word,
    PropertyView, SchemaProperty,
};
use crate::text::{
    is_uppercase, lower_first, lowercase_first, push_char, string_from_chars, uppercase,
    StringExecFns,
};

verus! {

/// The words found so far in a name, and the word being read.
pub open spec fn split_state(s: Seq<char>) -> (Seq<Seq<char>>, Seq<char>)
    decreases s.len(),
{
    if s.len() == 0 {
        (Seq::empty(), Seq::empty())
    } else {
        let (words, cur) = split_state(s.drop_last());
        let c = s.last();
        if c == '_' || c == '-' {
            if cur.len() > 0 {
                (words.push(cur), Seq::empty())
            } else {
                (words, cur)
            }
        } else if uppercase(c) && cur.len() > 0 {
            (words.push(cur), seq![lowercase_first(c)])
        } else {
            (words, cur.push(lowercase_first(c)))
        }
    }
}

/// The words of a camelCase, snake_case or kebab-case name, in lowercase:
/// `_` and `-` end a word, and an uppercase letter starts one.
pub open spec fn name_words(s: Seq<char>) -> Seq<Seq<char>> {
    let (words, cur) = split_state(s);
    if cur.len() > 0 {
        words.push(cur)
    } else {
        words
    }
}

/// The words joined by single spaces.
pub open spec fn joined(words: Seq<Seq<char>>) -> Seq<char>
    decreases words.len(),
{
    if words.len() == 0 {
        Seq::empty()
    } else if words.len() == 1 {
        words[0]
    } else {
        with_word(joined(words.drop_last()), words.last())
    }
}

/// The characters of each string.
pub open spec fn word_texts(v: Seq<String>) -> Seq<Seq<char>> {
    v.map_values(|s: String| s@)
}

/// Joins words with single spaces.
pub fn join_words(words: &Vec<String>) -> (r: String)
    ensures
        r@ == joined(word_texts(words@)),
{
    let ghost ws = word_texts(words@);
    let mut out = String::new();
    let mut i: usize = 0;
    while i < words.len()
        invariant
            i <= words.len(),
            ws == word_texts(words@),
            out@ == joined(ws.take(i as int)),
        decreases words.len() - i,
    {
        proof {
            assert(ws.take(i + 1).drop_last() =~= ws.take(i as int));
        }
        if i == 0 {
            out.append(words[i].as_str());
            proof {
                assert(out@ =~= joined(ws.take(1)));
            }
        } else {
            push_word(&mut out, words[i].as_str());
        }
        i = i + 1;
    }
    proof {
        assert(ws.take(i as int) =~= ws);
    }
    out
}

/// Splits a camelCase, snake_case or kebab-case name into lowercase words
/// joined by spaces, e.g. `listPullRequests` into `list pull requests`.
pub fn expand_name(name: &str) -> (r: String)
    ensures
        r@ == joined(name_words(name@)),
{
    let chars = crate::text::str_chars(name);
    let ghost all = chars@;
    let mut words: Vec<String> = Vec::new();
    let mut current: Vec<char> = Vec::new();
    let mut i: usize = 0;
    while i < chars.len()
        invariant
            i <= chars.len(),
            all == chars@,
            word_texts(words@) == split_state(all.take(i as int)).0,
            current@ == split_state(all.take(i as int)).1,
        decreases chars.len() - i,
    {
        let ch = chars[i];
        proof {
            assert(all.take(i + 1).drop_last() =~= all.take(i as int));
        }
        let ghost before = words@;
        if ch == '_' || ch == '-' {
            if current.len() > 0 {
                words.push(string_from_chars(&current));
                current = Vec::new();
                proof {
                    assert(word_texts(words@) =~= word_texts(before).push(
                        split_state(all.take(i as int)).1,
                    ));
                }
            }
        } else if is_uppercase(ch) && current.len() > 0 {
            words.push(string_from_chars(&current));
            current = Vec::new();
            current.push(lower_first(ch));
            proof {
                assert(word_texts(words@) =~= word_texts(before).push(
                    split_state(all.take(i as int)).1,
                ));
                assert(current@ =~= seq![lowercase_first(ch)]);
            }
        } else {
            current.push(lower_first(ch));
        }
        i = i + 1;
    }
    proof {
        assert(all.take(i as int) =~= all);
    }
    if current.len() > 0 {
        let ghost before = words@;
        words.push(string_from_chars(&current));
        proof {
            assert(word_texts(words@) =~= word_texts(before).push(current@));
        }
    }
    join_words(&words)
}

/// Each property's name, its words, and its description if it has one,
/// each after a space.
pub open spec fn property_text(props: Seq<PropertyView>) -> Seq<char>
    decreases props.len(),
{
    if props.len() == 0 {
        Seq::empty()
    } else {
        let p = props.last();
        with_optional(
            with_word(with_word(property_text(props.drop_last()), p.name), joined(name_words(p.name))),
            p.description,
        )
    }
}

/// A tool's searchable text: its name, its server and the words of its
/// name, its description, then each parameter's name, words and
/// description.
pub open spec fn semantic_text(
    name: Seq<char>,
    server: Seq<char>,
    description: Option<Seq<char>>,
    props: Seq<PropertyView>,
) -> Seq<char> {
    with_optional(with_word(with_word(name, server), joined(name_words(name))), description)
        + property_text(props)
}

/// Assembles a tool's searchable text from its parts.
pub fn semantic_search_text(
    name: &str,
    server: &str,
    description: Option<&str>,
    props: &Vec<SchemaProperty>,
) -> (r: String)
    ensures
        r@ == semantic_text(
            name@,
            server@,
            match description {
                Some(d) => Some(d@),
                None => None,
            },
            property_models(props@),
        ),
{
    let ghost pv = property_models(props@);
    let mut text = String::from_str(name);
    push_word(&mut text, server);
    let expanded = expand_name(name);
    push_word(&mut text, expanded.as_str());
    if let Some(d) = description {
        push_word(&mut text, d);
    }
    let ghost head = text@;
    let mut i: usize = 0;
    while i < props.len()
        invariant
            i <= props.len(),
            pv == property_models(props@),
            text@ == head + property_text(pv.take(i as int)),
        decreases props.len() - i,
    {
        let p = &props[i];
        push_word(&mut text, p.name.as_str());
        let words = expand_name(p.name.as_str());
        push_word(&mut text, words.as_str());
        if let Some(d) = &p.description {
            push_word(&mut text, d.as_str());
        }
        proof {
            assert(pv.take(i + 1).drop_last() =~= pv.take(i as int));
            assert(text@ =~= head + property_text(pv.take(i + 1)));
        }
        i = i + 1;
    }
    proof {
        assert(pv.take(i as int) =~= pv);
    }
    text
}

/// A tool's searchable text for embedding.
pub fn build_tool_text(tool: &RegisteredTool) -> (r: String)
    ensures
        r@ == semantic_text(
            tool.definition.name@,
            tool.server_name@,
            description_of(*tool),
            tool_properties_of(*tool),
        ),
{
    let props = tool_properties(tool);
    let description = match &tool.definition.description {
        Some(d) => Some(d.as_str()),
        None => None,
    };
    let r = semantic_search_text(tool.definition.name.as_str(), tool.server_name.as_str(), description, &props);
    r
}

/// The FNV-1a offset basis.
pub const FNV_OFFSET: u64 = 0xcbf29ce484222325;

/// The FNV-1a prime.
pub const FNV_PRIME: u64 = 0x100000001b3;

/// The 64-bit FNV-1a hash of a byte string: each byte is xored in, then
/// the hash is multiplied by the prime modulo 2^64.
pub open spec fn fnv1a(bytes: Seq<u8>) -> u64
    decreases bytes.len(),
{
    if bytes.len() == 0 {
        FNV_OFFSET
    } else {
        (((fnv1a(bytes.drop_last()) ^ (bytes.last() as u64)) as nat * FNV_PRIME as nat)
            % 0x1_0000_0000_0000_0000nat) as u64
    }
}

/// The FNV-1a hash of a string's UTF-8 bytes.
pub fn hash_string(s: &str) -> (r: u64)
    ensures
        r == fnv1a(encode_utf8(s@)),
{
    let bytes = s.as_bytes();
    let mut hash: u64 = FNV_OFFSET;
    let mut i: usize = 0;
    while i < bytes.len()
        invariant
            i <= bytes.len(),
            hash == fnv1a(bytes@.take(i as int)),
        decreases bytes.len() - i,
    {
        proof {
            assert(bytes@.take(i + 1).drop_last() =~= bytes@.take(i as int));
        }
        hash = (hash ^ (bytes[i] as u64)).wrapping_mul(FNV_PRIME);
        i = i + 1;
    }
    proof {
        assert(bytes@.take(i as int) =~= bytes@);
    }
    hash
}

} // verus!
