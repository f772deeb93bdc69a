//! Tool calls that the native decoder missed: fenced JSON blocks, and
//! tool-call blocks whose closing tag never came.

use vstd::prelude::*;
use vstd::string::*;
use vstd::utf8::encode_utf8;

use crate::json::{
    from_text, get_str, json_text, json_value, member, member_of, str_member, to_text, tree,
    Object, Tree,
};
use crate::text::{
    chars_of, find_from, first_at, law_a_search_finds_the_first_place, lemma_find_from, none_from, search, slice_of, string_of, trim, trimmed,
};

verus! {

// ---------------------------------------------------------------------------
// Calls in JSON
// ---------------------------------------------------------------------------

/// The call that a fenced value spells: a string name and an object of
/// arguments.
pub open spec fn fenced_call(t: Tree) -> Option<(Seq<char>, Seq<char>)> {
    match str_member(t, "name"@) {
        Some(name) => match member_of(t, "arguments"@) {
            Some(args) => if args is Obj {
                Some((name, json_text(args)))
            } else {
                None
            },
            None => None,
        },
        None => None,
    }
}

/// The call that a tool-call block's value spells: a string name, and its
/// arguments, an empty object where there are none.
pub open spec fn block_call(t: Tree) -> Option<(Seq<char>, Seq<char>)> {
    match str_member(t, "name"@) {
        Some(name) => Some(
            (
                name,
                json_text(
                    match member_of(t, "arguments"@) {
                        Some(args) => args,
                        None => Tree::Obj(Map::empty()),
                    },
                ),
            ),
        ),
        None => None,
    }
}

/// The call that a fenced value spells.
pub fn read_fenced_call(v: &serde_json::Value) -> (r: Option<(String, String)>)
    ensures
        match r {
            Some(c) => fenced_call(tree(*v)) == Some((c.0@, c.1@)),
            None => fenced_call(tree(*v)) is None,
        },
{
    match get_str(v, "name") {
        Some(name) => match member(v, "arguments") {
            Some(args) => if args.is_object() {
                Some((name.to_owned(), to_text(args)))
            } else {
                None
            },
            None => None,
        },
        None => None,
    }
}

/// The call that a tool-call block's value spells.
pub fn read_block_call(v: &serde_json::Value) -> (r: Option<(String, String)>)
    ensures
        match r {
            Some(c) => block_call(tree(*v)) == Some((c.0@, c.1@)),
            None => block_call(tree(*v)) is None,
        },
{
    match get_str(v, "name") {
        Some(name) => {
            let args = match member(v, "arguments") {
                Some(a) => to_text(a),
                None => {
                    let empty = Object::new().build();
                    to_text(&empty)
                },
            };
            Some((name.to_owned(), args))
        },
        None => None,
    }
}

// ---------------------------------------------------------------------------
// Fences
// ---------------------------------------------------------------------------

/// A found call: where its fence stands, in bytes, its name and its arguments.
pub type FencedView = (int, Seq<char>, Seq<char>);

/// The calls of the fences of `s` from `from` on. A fence's body runs from the
/// line behind its opening to its closing; an unclosed fence ends the search.
pub open spec fn fenced_from(s: Seq<char>, from: int) -> Seq<FencedView>
    decreases s.len() - from,
    via fenced_decreases
{
    match find_from(s, "```"@, from) {
        None => Seq::empty(),
        Some(fence) => match find_from(s, "\n"@, fence + 3) {
            None => Seq::empty(),
            Some(nl) => match find_from(s, "```"@, nl + 1) {
                None => Seq::empty(),
                Some(end) => {
                    let rest = fenced_from(s, end + 3);
                    match json_value(trim(s.subrange(nl + 1, end))) {
                        None => rest,
                        Some(t) => match fenced_call(t) {
                            None => rest,
                            Some(c) => seq![
                                (encode_utf8(s.take(fence)).len() as int, c.0, c.1),
                            ] + rest,
                        },
                    }
                },
            },
        },
    }
}

#[via_fn]
proof fn fenced_decreases(s: Seq<char>, from: int) {
    lemma_fence(s, from);
}

proof fn lemma_fence(s: Seq<char>, from: int)
    ensures
        from >= 0 ==> match find_from(s, "```"@, from) {
            None => true,
            Some(fence) => from <= fence && fence + 3 <= s.len() && match find_from(
                s,
                "\n"@,
                fence + 3,
            ) {
                None => true,
                Some(nl) => fence + 3 <= nl < s.len() && match find_from(s, "```"@, nl + 1) {
                    None => true,
                    Some(end) => nl + 1 <= end && end + 3 <= s.len(),
                },
            },
        },
        from < 0 ==> find_from(s, "```"@, from) is None,
{
    reveal_strlit("```");
    reveal_strlit("\n");
    if from >= 0 {
        lemma_find_from(s, "```"@, from);
        if let Some(fence) = find_from(s, "```"@, from) {
            lemma_find_from(s, "\n"@, fence + 3);
            if let Some(nl) = find_from(s, "\n"@, fence + 3) {
                lemma_find_from(s, "```"@, nl + 1);
            }
        }
    }
}

/// What found calls hold.
pub open spec fn fenced_view(v: Seq<(usize, String, String)>) -> Seq<FencedView> {
    v.map_values(|c: (usize, String, String)| (c.0 as int, c.1@, c.2@))
}

fn byte_offset(s: &[char], i: usize) -> (r: usize)
    requires
        i <= s@.len(),
    ensures
        r == encode_utf8(s@.take(i as int)).len(),
{
    let front = slice_of(s, 0, i);
    let text = string_of(front.as_slice());
    proof {
        assert(front@ =~= s@.take(i as int));
    }
    text.as_str().as_bytes().len()
}

/// Tool calls written as fenced JSON blocks, each with the byte offset of its
/// fence, in order.
pub fn parse_fenced_tool_calls(text: &str) -> (r: Vec<(usize, String, String)>)
    ensures
        fenced_view(r@) == fenced_from(text@, 0),
{
    let s = chars_of(text);
    let ticks = chars_of("```");
    let newline = chars_of("\n");
    let mut out: Vec<(usize, String, String)> = Vec::new();
    let mut at: usize = 0;
    proof {
        reveal_strlit("```");
        assert(fenced_view(out@) + fenced_from(s@, 0) =~= fenced_from(s@, 0));
    }
    loop
        invariant
            s@ == text@,
            ticks@ == "```"@,
            ticks@.len() == 3,
            newline@ == "\n"@,
            at <= s@.len(),
            fenced_from(s@, 0) == fenced_view(out@) + fenced_from(s@, at as int),
        decreases s.len() - at,
    {
        proof {
            lemma_fence(s@, at as int);
            assert(fenced_view(out@) + Seq::<FencedView>::empty() =~= fenced_view(out@));
        }
        let fence = match search(s.as_slice(), ticks.as_slice(), at) {
            Some(p) => p,
            None => {
                return out;
            },
        };
        let nl = match search(s.as_slice(), newline.as_slice(), fence + 3) {
            Some(p) => p,
            None => {
                return out;
            },
        };
        let end = match search(s.as_slice(), ticks.as_slice(), nl + 1) {
            Some(p) => p,
            None => {
                return out;
            },
        };
        let body = trimmed(slice_of(s.as_slice(), nl + 1, end).as_slice());
        let json = string_of(body.as_slice());
        let ghost before = out@;
        match from_text(json.as_str()) {
            Some(v) => {
                match read_fenced_call(&v) {
                    Some((name, args)) => {
                        let offset = byte_offset(s.as_slice(), fence);
                        out.push((offset, name, args));
                        proof {
                            let x = (offset as int, name@, args@);
                            assert(fenced_view(before) + (seq![x] + fenced_from(s@, end + 3))
                                =~= fenced_view(out@) + fenced_from(s@, end + 3));
                        }
                    },
                    None => {},
                }
            },
            None => {},
        }
        at = end + 3;
    }
}

// ---------------------------------------------------------------------------
// Tool-call blocks
// ---------------------------------------------------------------------------

/// The end of the object that is open to `depth` at `i`: behind the brace that
/// closes it, braces inside strings left out.
pub open spec fn object_end(s: Seq<char>, i: int, depth: nat, in_string: bool, escaped: bool) -> Option<
    int,
>
    decreases s.len() - i,
{
    if i < 0 || i >= s.len() {
        None
    } else if escaped {
        object_end(s, i + 1, depth, in_string, false)
    } else if s[i] == '\\' && in_string {
        object_end(s, i + 1, depth, in_string, true)
    } else if s[i] == '"' {
        object_end(s, i + 1, depth, !in_string, false)
    } else if s[i] == '{' && !in_string {
        object_end(s, i + 1, depth + 1, in_string, false)
    } else if s[i] == '}' && !in_string {
        if depth <= 1 {
            Some(i + 1)
        } else {
            object_end(s, i + 1, (depth - 1) as nat, in_string, false)
        }
    } else {
        object_end(s, i + 1, depth, in_string, false)
    }
}

/// The calls of the tool-call blocks of `s` from `from` on. A block's object
/// starts at its first brace; one that never closes ends the search.
pub open spec fn blocks_from(s: Seq<char>, from: int) -> Seq<(Seq<char>, Seq<char>)>
    decreases s.len() - from,
    via blocks_decreases
{
    match find_from(s, "<tool_call>"@, from) {
        None => Seq::empty(),
        Some(tag) => match find_from(s, "{"@, tag + 11) {
            None => Seq::empty(),
            Some(open) => match object_end(s, open, 0, false, false) {
                None => Seq::empty(),
                Some(end) => {
                    let rest = blocks_from(s, end);
                    match json_value(s.subrange(open, end)) {
                        None => rest,
                        Some(t) => match block_call(t) {
                            None => rest,
                            Some(c) => seq![c] + rest,
                        },
                    }
                },
            },
        },
    }
}

#[via_fn]
proof fn blocks_decreases(s: Seq<char>, from: int) {
    lemma_block(s, from);
}

proof fn lemma_object_end(s: Seq<char>, i: int, depth: nat, in_string: bool, escaped: bool)
    ensures
        object_end(s, i, depth, in_string, escaped) matches Some(e) ==> i < e <= s.len(),
    decreases s.len() - i,
{
    if 0 <= i < s.len() {
        if escaped {
            lemma_object_end(s, i + 1, depth, in_string, false);
        } else if s[i] == '\\' && in_string {
            lemma_object_end(s, i + 1, depth, in_string, true);
        } else if s[i] == '"' {
            lemma_object_end(s, i + 1, depth, !in_string, false);
        } else if s[i] == '{' && !in_string {
            lemma_object_end(s, i + 1, depth + 1, in_string, false);
        } else if s[i] == '}' && !in_string {
            if depth > 1 {
                lemma_object_end(s, i + 1, (depth - 1) as nat, in_string, false);
            }
        } else {
            lemma_object_end(s, i + 1, depth, in_string, false);
        }
    }
}

proof fn lemma_block(s: Seq<char>, from: int)
    ensures
        from >= 0 ==> match find_from(s, "<tool_call>"@, from) {
            None => true,
            Some(tag) => from <= tag && tag + 11 <= s.len() && match find_from(s, "{"@, tag + 11) {
                None => true,
                Some(open) => tag + 11 <= open < s.len() && match object_end(
                    s,
                    open,
                    0,
                    false,
                    false,
                ) {
                    None => true,
                    Some(end) => open < end <= s.len(),
                },
            },
        },
        from < 0 ==> find_from(s, "<tool_call>"@, from) is None,
{
    reveal_strlit("<tool_call>");
    reveal_strlit("{");
    if from >= 0 {
        lemma_find_from(s, "<tool_call>"@, from);
        if let Some(tag) = find_from(s, "<tool_call>"@, from) {
            lemma_find_from(s, "{"@, tag + 11);
            if let Some(open) = find_from(s, "{"@, tag + 11) {
                lemma_object_end(s, open, 0, false, false);
            }
        }
    }
}

fn find_object_end(s: &[char], open: usize) -> (r: Option<usize>)
    ensures
        match r {
            Some(e) => object_end(s@, open as int, 0, false, false) == Some(e as int),
            None => object_end(s@, open as int, 0, false, false) is None,
        },
{
    let mut depth: usize = 0;
    let mut in_string: bool = false;
    let mut escaped: bool = false;
    let mut i: usize = open;
    while i < s.len()
        invariant
            open <= i,
            depth <= i - open,
            object_end(s@, open as int, 0, false, false) == object_end(
                s@,
                i as int,
                depth as nat,
                in_string,
                escaped,
            ),
        decreases s.len() - i,
    {
        let c = s[i];
        if escaped {
            escaped = false;
        } else if c == '\\' && in_string {
            escaped = true;
        } else if c == '"' {
            in_string = !in_string;
        } else if c == '{' && !in_string {
            depth += 1;
        } else if c == '}' && !in_string {
            if depth <= 1 {
                return Some(i + 1);
            }
            depth -= 1;
        }
        i += 1;
    }
    None
}

/// What found calls hold.
pub open spec fn calls_found(v: Seq<(String, String)>) -> Seq<(Seq<char>, Seq<char>)> {
    v.map_values(|c: (String, String)| (c.0@, c.1@))
}

/// Tool calls of `<tool_call>` blocks in a raw generation, closing tag
/// optional, in order.
pub fn parse_hermes_tool_calls(text: &str) -> (r: Vec<(String, String)>)
    ensures
        calls_found(r@) == blocks_from(text@, 0),
{
    let s = chars_of(text);
    let tag = chars_of("<tool_call>");
    let brace = chars_of("{");
    let mut out: Vec<(String, String)> = Vec::new();
    let mut at: usize = 0;
    proof {
        assert(calls_found(out@) + blocks_from(s@, 0) =~= blocks_from(s@, 0));
    }
    loop
        invariant
            s@ == text@,
            tag@ == "<tool_call>"@,
            brace@ == "{"@,
            at <= s@.len(),
            blocks_from(s@, 0) == calls_found(out@) + blocks_from(s@, at as int),
        decreases s.len() - at,
    {
        proof {
            lemma_block(s@, at as int);
            assert(calls_found(out@) + Seq::<(Seq<char>, Seq<char>)>::empty() =~= calls_found(
                out@,
            ));
        }
        let found = match search(s.as_slice(), tag.as_slice(), at) {
            Some(p) => p,
            None => {
                return out;
            },
        };
        let open = match search(s.as_slice(), brace.as_slice(), found + 11) {
            Some(p) => p,
            None => {
                return out;
            },
        };
        let end = match find_object_end(s.as_slice(), open) {
            Some(e) => e,
            None => {
                return out;
            },
        };
        let json = string_of(slice_of(s.as_slice(), open, end).as_slice());
        let ghost before = out@;
        match from_text(json.as_str()) {
            Some(v) => {
                match read_block_call(&v) {
                    Some((name, args)) => {
                        out.push((name, args));
                        proof {
                            let x = (name@, args@);
                            assert(calls_found(before) + (seq![x] + blocks_from(s@, end as int))
                                =~= calls_found(out@) + blocks_from(s@, end as int));
                        }
                    },
                    None => {},
                }
            },
            None => {},
        }
        at = end;
    }
}

// ---------------------------------------------------------------------------
// What is read back
// ---------------------------------------------------------------------------

/// Where a reader of JSON stands: how many braces are open, and whether it is in
/// a string or behind an escape there.
pub struct Reader {
    pub open: int,
    pub in_string: bool,
    pub escaped: bool,
}

/// The reader behind one more character.
pub open spec fn read_on(r: Reader, c: char) -> Reader {
    if r.in_string {
        Reader {
            open: r.open,
            in_string: r.escaped || c != '"',
            escaped: !r.escaped && c == '\\',
        }
    } else {
        Reader {
            open: r.open + (if c == '{' {
                1int
            } else if c == '}' {
                -1
            } else {
                0
            }),
            in_string: c == '"',
            escaped: false,
        }
    }
}

/// The reader that started at `from`, at `n`.
pub open spec fn reader_at(s: Seq<char>, from: int, n: int) -> Reader
    decreases n - from,
{
    if n <= from {
        Reader { open: 0, in_string: false, escaped: false }
    } else {
        read_on(reader_at(s, from, n - 1), s[n - 1])
    }
}

proof fn lemma_braces_close(s: Seq<char>, from: int, i: int)
    requires
        0 <= from < i <= s.len(),
        s[from] == '{',
        reader_at(s, from, i).open > 0,
        !reader_at(s, from, i).in_string ==> !reader_at(s, from, i).escaped,
    ensures
        ({
            let r = reader_at(s, from, i);
            match object_end(s, i, r.open as nat, r.in_string, r.escaped) {
                Some(e) => i < e <= s.len() && reader_at(s, from, e).open == 0 && forall|k: int|
                    i <= k < e ==> (#[trigger] reader_at(s, from, k)).open > 0,
                None => forall|k: int|
                    i <= k <= s.len() ==> (#[trigger] reader_at(s, from, k)).open > 0,
            }
        }),
    decreases s.len() - i,
{
    if i < s.len() {
        assert(reader_at(s, from, i + 1) == read_on(reader_at(s, from, i), s[i]));
        if reader_at(s, from, i + 1).open > 0 {
            lemma_braces_close(s, from, i + 1);
        }
    }
}

/// An object ends where its braces, those in strings left out, are first all
/// closed again; it has no end where they never are.
pub proof fn law_an_object_ends_with_its_last_brace(s: Seq<char>, from: int)
    requires
        0 <= from < s.len(),
        s[from] == '{',
    ensures
        match object_end(s, from, 0, false, false) {
            Some(e) => from < e <= s.len() && reader_at(s, from, e).open == 0 && forall|k: int|
                from < k < e ==> (#[trigger] reader_at(s, from, k)).open > 0,
            None => forall|k: int|
                from < k <= s.len() ==> (#[trigger] reader_at(s, from, k)).open > 0,
        },
{
    assert(reader_at(s, from, from).open == 0);
    assert(reader_at(s, from, from + 1) == read_on(reader_at(s, from, from), s[from]));
    lemma_braces_close(s, from, from + 1);
}

/// A JSON object is a call where its name is a string. In a fence its arguments
/// must be an object; in a block they may be anything, and none are an empty
/// object.
pub proof fn law_a_named_object_is_a_call(t: Tree, name: Seq<char>, args: Tree)
    ensures
        fenced_call(t) == Some((name, json_text(args))) && args is Obj <== at_name(t) == Some(name)
            && member_of(t, "arguments"@) == Some(args) && args is Obj,
        fenced_call(t) is Some ==> at_name(t) is Some && member_of(t, "arguments"@) is Some && member_of(
            t,
            "arguments"@,
        )->0 is Obj,
        at_name(t) == Some(name) && member_of(t, "arguments"@) == Some(args) ==> block_call(t) == Some(
            (name, json_text(args)),
        ),
        at_name(t) == Some(name) && member_of(t, "arguments"@) is None ==> block_call(t) == Some(
            (name, json_text(Tree::Obj(Map::empty()))),
        ),
        block_call(t) is Some <==> at_name(t) is Some,
{
}

/// The string name of an object.
pub open spec fn at_name(t: Tree) -> Option<Seq<char>> {
    match member_of(t, "name"@) {
        Some(Tree::Str(s)) => Some(s),
        _ => None,
    }
}

/// Fences are read in order: the next is what stands between the line behind its
/// opening and its closing, a call at the opening's byte where it spells one, and
/// the search goes on behind the closing.
pub proof fn law_fences_are_read_in_order(s: Seq<char>, from: int, fence: int, nl: int, end: int)
    requires
        0 <= from,
    ensures
        none_from(s, "```"@, from) ==> fenced_from(s, from).len() == 0,
        first_at(s, "```"@, from, fence) && first_at(s, "\n"@, fence + "```"@.len(), nl) && first_at(
            s,
            "```"@,
            nl + 1,
            end,
        ) ==> fenced_from(s, from) == ({
            let found = match json_value(trim(s.subrange(nl + 1, end))) {
                Some(t) => fenced_call(t),
                None => None,
            };
            let rest = fenced_from(s, end + "```"@.len());
            match found {
                Some(c) => seq![(encode_utf8(s.take(fence)).len() as int, c.0, c.1)] + rest,
                None => rest,
            }
        }),
        first_at(s, "```"@, from, fence) && first_at(s, "\n"@, fence + "```"@.len(), nl) && none_from(
            s,
            "```"@,
            nl + 1,
        ) ==> fenced_from(s, from).len() == 0,
{
    reveal_strlit("```");
    assert("```"@.len() == 3);
    law_a_search_finds_the_first_place(s, "```"@, from, fence);
    if first_at(s, "```"@, from, fence) {
        law_a_search_finds_the_first_place(s, "\n"@, fence + 3, nl);
        if first_at(s, "\n"@, fence + 3, nl) {
            law_a_search_finds_the_first_place(s, "```"@, nl + 1, end);
        }
    }
}

/// Tool-call blocks are read in order: the next is the object at the first brace
/// behind its opening tag, a call where it spells one, and the search goes on
/// behind that object.
pub proof fn law_blocks_are_read_in_order(s: Seq<char>, from: int, tag: int, open: int)
    requires
        0 <= from,
    ensures
        none_from(s, "<tool_call>"@, from) ==> blocks_from(s, from).len() == 0,
        first_at(s, "<tool_call>"@, from, tag) && first_at(
            s,
            "{"@,
            tag + "<tool_call>"@.len(),
            open,
        ) ==> match object_end(s, open, 0, false, false) {
            None => blocks_from(s, from).len() == 0,
            Some(end) => blocks_from(s, from) == ({
                let found = match json_value(s.subrange(open, end)) {
                    Some(t) => block_call(t),
                    None => None,
                };
                match found {
                    Some(c) => seq![c] + blocks_from(s, end),
                    None => blocks_from(s, end),
                }
            }),
        },
{
    reveal_strlit("<tool_call>");
    assert("<tool_call>"@.len() == 11);
    law_a_search_finds_the_first_place(s, "<tool_call>"@, from, tag);
    if first_at(s, "<tool_call>"@, from, tag) {
        law_a_search_finds_the_first_place(s, "{"@, tag + 11, open);
    }
}

} // verus!
