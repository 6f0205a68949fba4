//! JSON: the boundary to `serde_json`, and how strings are written.

use serde_json::Value;
use vstd::prelude::*;

verus! {

/// A parsed JSON document, carried through opaquely; see [`json_nodes`].
#[verifier::external_type_specification]
#[verifier::external_body]
pub struct ExValue(Value);

/// The error of `serde_json`, carried through opaquely.
#[verifier::external_type_specification]
#[verifier::external_body]
pub struct ExError(serde_json::Error);

/// What stands at one place of a JSON document, as far as it is read.
pub enum JsonNode {
    /// An integer that fits in an `i64`.
    Integer(i64),
    /// A string.
    Text(Seq<char>),
    /// An array, element by element.
    List(Seq<JsonNode>),
    /// Anything else: null, a boolean, an object, any other number.
    Other,
}

/// What a document holds: every JSON pointer (RFC 6901) that leads somewhere
/// in it, with what it leads to. The empty pointer leads to the document
/// itself.
pub uninterp spec fn json_nodes(document: Value) -> Map<Seq<char>, JsonNode>;

/// What `serde_json::from_str` makes of a text: the contents of the document,
/// or `None` where the text is not JSON.
pub uninterp spec fn parsed_json(text: Seq<char>) -> Option<Map<Seq<char>, JsonNode>>;

/// A document itself, as a node.
pub open spec fn root_node(document: Value) -> JsonNode {
    json_nodes(document)[Seq::empty()]
}

/// The integer of a node.
pub open spec fn node_integer(node: JsonNode) -> Option<i64> {
    match node {
        JsonNode::Integer(i) => Some(i),
        _ => None,
    }
}

/// The string of a node.
pub open spec fn node_text(node: JsonNode) -> Option<Seq<char>> {
    match node {
        JsonNode::Text(s) => Some(s),
        _ => None,
    }
}

/// The integer that a pointer leads to.
pub open spec fn integer_at(nodes: Map<Seq<char>, JsonNode>, pointer: Seq<char>) -> Option<i64> {
    if nodes.contains_key(pointer) {
        node_integer(nodes[pointer])
    } else {
        None
    }
}

/// The string that a pointer leads to.
pub open spec fn text_at(nodes: Map<Seq<char>, JsonNode>, pointer: Seq<char>) -> Option<
    Seq<char>,
> {
    if nodes.contains_key(pointer) {
        node_text(nodes[pointer])
    } else {
        None
    }
}

/// The strings among the elements of an array, in order.
pub open spec fn texts_of(nodes: Seq<JsonNode>) -> Seq<Seq<char>>
    decreases nodes.len(),
{
    if nodes.len() == 0 {
        Seq::empty()
    } else {
        match nodes.last() {
            JsonNode::Text(s) => texts_of(nodes.drop_last()).push(s),
            _ => texts_of(nodes.drop_last()),
        }
    }
}

/// The strings of the array that a pointer leads to; none where it leads to
/// anything else.
pub open spec fn texts_at(nodes: Map<Seq<char>, JsonNode>, pointer: Seq<char>) -> Seq<Seq<char>> {
    if nodes.contains_key(pointer) {
        match nodes[pointer] {
            JsonNode::List(items) => texts_of(items),
            _ => Seq::empty(),
        }
    } else {
        Seq::empty()
    }
}

/// `serde_json::from_str` parses a text into a document. Whether it succeeds,
/// and what the document holds, is a function of the text.
#[verifier::external_body]
pub(crate) fn parse_json(text: &str) -> (r: Result<Value, serde_json::Error>)
    ensures
        r is Ok <==> parsed_json(text@) is Some,
        r matches Ok(document) ==> parsed_json(text@) == Some(json_nodes(document)),
{
    serde_json::from_str(text)
}

/// `serde_json::Value::pointer` looks a JSON pointer up in a document.
#[verifier::external_body]
pub(crate) fn pointer<'a>(document: &'a Value, path: &str) -> (r: Option<&'a Value>)
    ensures
        r is Some <==> json_nodes(*document).contains_key(path@),
        r matches Some(node) ==> root_node(*node) == json_nodes(*document)[path@],
{
    document.pointer(path)
}

/// `serde_json::Value::as_i64` gives the integer of a node, where it is one
/// that fits.
#[verifier::external_body]
pub(crate) fn as_i64(node: &Value) -> (r: Option<i64>)
    ensures
        r == node_integer(root_node(*node)),
{
    node.as_i64()
}

/// `serde_json::Value::as_str` gives the string of a node, where it is one.
#[verifier::external_body]
pub(crate) fn as_str(node: &Value) -> (r: Option<&str>)
    ensures
        r is Some <==> node_text(root_node(*node)) is Some,
        r matches Some(s) ==> node_text(root_node(*node)) == Some(s@),
{
    node.as_str()
}

/// `serde_json::Value::as_array` gives the elements of a node, where it is an
/// array.
#[verifier::external_body]
pub(crate) fn as_array(node: &Value) -> (r: Option<&Vec<Value>>)
    ensures
        r is Some <==> root_node(*node) is List,
        r matches Some(items) ==> {
            &&& items@.len() == root_node(*node)->List_0.len()
            &&& forall|i: int|
                0 <= i < items@.len() ==> root_node(#[trigger] items@[i]) == root_node(
                    *node,
                )->List_0[i]
        },
{
    node.as_array()
}

/// Reads an integer by its pointer.
pub(crate) fn i64_at(root: &Value, path: &str) -> (r: Option<i64>)
    ensures
        r == integer_at(json_nodes(*root), path@),
{
    match pointer(root, path) {
        Some(node) => as_i64(node),
        None => None,
    }
}

/// Reads a string by its pointer.
pub(crate) fn str_at(root: &Value, path: &str) -> (r: Option<String>)
    ensures
        r is Some <==> text_at(json_nodes(*root), path@) is Some,
        r matches Some(s) ==> text_at(json_nodes(*root), path@) == Some(s@),
{
    match pointer(root, path) {
        Some(node) => match as_str(node) {
            Some(s) => Some(s.to_owned()),
            None => None,
        },
        None => None,
    }
}

/// Reads the strings of an array by its pointer.
pub(crate) fn strs_at(root: &Value, path: &str) -> (r: Vec<String>)
    ensures
        crate::text::views(r@) == texts_at(json_nodes(*root), path@),
{
    let mut list: Vec<String> = Vec::new();
    assert(crate::text::views(list@) =~= Seq::empty());
    match pointer(root, path) {
        Some(node) => match as_array(node) {
            Some(items) => {
                let ghost nodes = root_node(*node)->List_0;
                let mut i: usize = 0;
                while i < items.len()
                    invariant
                        i <= items@.len() == nodes.len(),
                        forall|j: int|
                            0 <= j < items@.len() ==> root_node(#[trigger] items@[j]) == nodes[j],
                        crate::text::views(list@) == texts_of(nodes.take(i as int)),
                    decreases items@.len() - i,
                {
                    let ghost before = list@;
                    assert(nodes.take(i + 1).drop_last() =~= nodes.take(i as int));
                    assert(root_node(items@[i as int]) == nodes[i as int]);
                    if let Some(s) = as_str(&items[i]) {
                        list.push(s.to_owned());
                        assert(crate::text::views(list@) =~= crate::text::views(before).push(s@));
                    }
                    i += 1;
                }
                assert(nodes.take(i as int) =~= nodes);
            },
            None => {},
        },
        None => {},
    }
    list
}

// ---------------------------------------------------------------------------
// Strings in JSON
// ---------------------------------------------------------------------------

/// The lower-case hexadecimal digit of a number below 16.
pub open spec fn hex_digit(v: int) -> char {
    if v < 10 {
        (v + '0' as int) as char
    } else {
        (v - 10 + 'a' as int) as char
    }
}

/// One character inside a JSON string: quotes, backslashes and control
/// characters are escaped, any other character stands for itself.
pub open spec fn escaped_char(c: char) -> Seq<char> {
    if c == '"' {
        seq!['\\', '"']
    } else if c == '\\' {
        seq!['\\', '\\']
    } else if c == '\u{8}' {
        seq!['\\', 'b']
    } else if c == '\t' {
        seq!['\\', 't']
    } else if c == '\n' {
        seq!['\\', 'n']
    } else if c == '\u{c}' {
        seq!['\\', 'f']
    } else if c == '\r' {
        seq!['\\', 'r']
    } else if (c as int) < 32 {
        seq!['\\', 'u', '0', '0', hex_digit(c as int / 16), hex_digit(c as int % 16)]
    } else {
        seq![c]
    }
}

/// A text inside a JSON string.
pub open spec fn escaped(s: Seq<char>) -> Seq<char>
    decreases s.len(),
{
    if s.len() == 0 {
        Seq::empty()
    } else {
        escaped(s.drop_last()) + escaped_char(s.last())
    }
}

/// A text as a JSON string.
pub open spec fn json_string(s: Seq<char>) -> Seq<char> {
    seq!['"'] + escaped(s) + seq!['"']
}

/// `serde_json::to_string` writes a string as JSON; it does not fail on
/// strings.
#[verifier::external_body]
pub(crate) fn to_json_string(s: &str) -> (r: Result<String, serde_json::Error>)
    ensures
        r is Ok,
        r->Ok_0@ == json_string(s@),
{
    serde_json::to_string(s)
}

// ---------------------------------------------------------------------------
// Laws
// ---------------------------------------------------------------------------

/// A pointer gives an integer or a string where it leads to one, and nothing
/// where it leads to anything else or nowhere.
pub proof fn nodes_are_read_by_their_kind(nodes: Map<Seq<char>, JsonNode>, pointer: Seq<char>)
    ensures
        nodes.contains_key(pointer) ==> match nodes[pointer] {
            JsonNode::Integer(i) => integer_at(nodes, pointer) == Some(i) && text_at(
                nodes,
                pointer,
            ) is None,
            JsonNode::Text(s) => integer_at(nodes, pointer) is None && text_at(nodes, pointer)
                == Some(s),
            _ => integer_at(nodes, pointer) is None && text_at(nodes, pointer) is None,
        },
        !nodes.contains_key(pointer) ==> integer_at(nodes, pointer) is None && text_at(
            nodes,
            pointer,
        ) is None,
{
}

proof fn lemma_texts_of(items: Seq<JsonNode>, s: Seq<char>)
    ensures
        texts_of(items).contains(s) <==> items.contains(JsonNode::Text(s)),
    decreases items.len(),
{
    let node = JsonNode::Text(s);
    if items.len() > 0 {
        let front = items.drop_last();
        let before = texts_of(front);
        lemma_texts_of(front, s);
        assert(items =~= front.push(items.last()));
        if items.contains(node) && items.last() != node {
            let i = choose|i: int| 0 <= i < items.len() && items[i] == node;
            assert(front[i] == node);
        }
        if front.contains(node) {
            let i = choose|i: int| 0 <= i < front.len() && front[i] == node;
            assert(items[i] == node);
        }
        if before.contains(s) {
            let i = choose|i: int| 0 <= i < before.len() && before[i] == s;
            assert(texts_of(items)[i] == s);
        }
        if items.last() == node {
            assert(items[items.len() - 1] == node);
            assert(texts_of(items)[before.len() as int] == s);
        }
        if texts_of(items).contains(s) && items.last() != node {
            let i = choose|i: int| 0 <= i < texts_of(items).len() && texts_of(items)[i] == s;
            if i == before.len() {
                assert(items.last() == node);
            } else {
                assert(before[i] == s);
            }
        }
    }
}

/// The strings at a pointer are the strings among the elements of the array that
/// it leads to; anything else has none.
pub proof fn strings_are_read_from_arrays(
    nodes: Map<Seq<char>, JsonNode>,
    pointer: Seq<char>,
    s: Seq<char>,
)
    ensures
        texts_at(nodes, pointer).contains(s) <==> nodes.contains_key(pointer) && (nodes[pointer]
            matches JsonNode::List(items) && items.contains(JsonNode::Text(s))),
{
    if nodes.contains_key(pointer) {
        if let JsonNode::List(items) = nodes[pointer] {
            lemma_texts_of(items, s);
        }
    }
}

} // verus!
