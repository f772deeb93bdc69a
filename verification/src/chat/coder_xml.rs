//! Tool calls in the coder XML dialect that arrive without their wrapper:
//! `<function=NAME><parameter=key>value</parameter>…</function>`, values typed
//! by the tool schemas.

use vstd::prelude::*;
use vstd::string::*;

use crate::json::{
    boolean, from_text, get_str, integer, json_text, json_value, member, member_of, str_member,
    string, to_text, tree, Object, Tree,
};
use crate::serving::salvage::calls_found;
use crate::format::{dec, dec_digit};
use crate::text::{
    chars_of, find_from, first_at, law_a_search_finds_the_first_place, lemma_find_from, none_from, same, search, slice_of, string_of, trim, trimmed,
};

verus! {

// ---------------------------------------------------------------------------
// Integers
// ---------------------------------------------------------------------------

/// Whether a character is a decimal digit.
pub open spec fn digit(c: char) -> bool {
    '0' <= c <= '9'
}

/// The number that decimal digits spell; none where there is no digit, or
/// another character.
pub open spec fn digits_value(s: Seq<char>) -> Option<int>
    decreases s.len(),
{
    if s.len() == 0 || !digit(s.last()) {
        None
    } else {
        let low = s.last() as int - '0' as int;
        if s.len() == 1 {
            Some(low)
        } else {
            match digits_value(s.drop_last()) {
                Some(high) => Some(high * 10 + low),
                None => None,
            }
        }
    }
}

/// The 64-bit signed integer that a text spells: an optional sign and decimal
/// digits, none outside the range.
pub open spec fn integer_value(s: Seq<char>) -> Option<int> {
    let negative = s.len() > 0 && s[0] == '-';
    let signed = negative || (s.len() > 0 && s[0] == '+');
    let digits = if signed {
        s.skip(1)
    } else {
        s
    };
    match digits_value(digits) {
        Some(n) => {
            let v = if negative {
                -n
            } else {
                n
            };
            if i64::MIN <= v <= i64::MAX {
                Some(v)
            } else {
                None
            }
        },
        None => None,
    }
}

proof fn lemma_digits_value(s: Seq<char>, i: int)
    requires
        0 < i <= s.len(),
    ensures
        digits_value(s) is Some ==> digits_value(s.take(i)) is Some && digits_value(s)->0
            >= digits_value(s.take(i))->0,
        digits_value(s) matches Some(v) ==> v >= 0,
    decreases s.len(),
{
    if i == s.len() {
        assert(s.take(i) =~= s);
        if s.len() > 1 {
            lemma_digits_value(s.drop_last(), i - 1);
        }
    } else {
        lemma_digits_value(s.drop_last(), i);
        assert(s.drop_last().take(i) =~= s.take(i));
    }
}

/// The 64-bit signed integer that a text spells.
pub fn read_integer(s: &[char]) -> (r: Option<i64>)
    ensures
        match r {
            Some(v) => integer_value(s@) == Some(v as int),
            None => integer_value(s@) is None,
        },
{
    let negative = s.len() > 0 && s[0] == '-';
    let signed = negative || (s.len() > 0 && s[0] == '+');
    let start: usize = if signed {
        1
    } else {
        0
    };
    let ghost d = s@.skip(start as int);
    proof {
        assert(s@.skip(0) =~= s@);
    }
    if start >= s.len() {
        return None;
    }
    let mut acc: i128 = 0;
    let mut i: usize = start;
    while i < s.len()
        invariant
            start < s.len(),
            start <= i <= s.len(),
            d == s@.skip(start as int),
            signed == (start == 1),
            !signed ==> start == 0,
            negative ==> signed,
            negative == (s@.len() > 0 && s@[0] == '-'),
            signed == (negative || (s@.len() > 0 && s@[0] == '+')),
            0 <= acc <= 0x8000_0000_0000_0000,
            i == start ==> acc == 0,
            i > start ==> digits_value(d.take(i - start)) == Some(acc as int),
        decreases s.len() - i,
    {
        let c = s[i];
        let ghost front = d.take(i - start + 1);
        proof {
            assert(front.last() == s@[i as int]);
            assert(front.drop_last() =~= d.take(i - start));
            assert(!signed ==> d =~= s@);
            lemma_digits_value(d, i - start + 1);
        }
        if !(c >= '0' && c <= '9') {
            return None;
        }
        acc = acc * 10 + (c as u32 - '0' as u32) as i128;
        if acc > 0x8000_0000_0000_0000 {
            return None;
        }
        i += 1;
    }
    proof {
        assert(d.take(i - start) =~= d);
        assert(!signed ==> d =~= s@);
    }
    if negative {
        Some((-acc) as i64)
    } else if acc > 0x7fff_ffff_ffff_ffff {
        None
    } else {
        Some(acc as i64)
    }
}

// ---------------------------------------------------------------------------
// Typed values
// ---------------------------------------------------------------------------

/// The number that serde_json makes of a text read as a double; none where the
/// text is no number or not a finite one.
pub uninterp spec fn json_number(text: Seq<char>) -> Option<Tree>;

/// `serde_json::Number::from_f64` on what `str::parse` reads from the text: the
/// number, none where the text does not parse or the number is not finite.
#[verifier::external_body]
fn read_number(text: &str) -> (r: Option<serde_json::Value>)
    ensures
        match r {
            Some(v) => json_number(text@) == Some(tree(v)),
            None => json_number(text@) is None,
        },
{
    text.parse().ok().and_then(serde_json::Number::from_f64).map(serde_json::Value::Number)
}

/// The value of a parameter by its declared type. What does not read as its
/// type stays a string, and so does every other type.
pub open spec fn typed_value(ty: Option<Seq<char>>, val: Seq<char>) -> Tree {
    let read = match ty {
        Some(t) => if t == "integer"@ {
            match integer_value(trim(val)) {
                Some(i) => Some(Tree::Int(i)),
                None => None,
            }
        } else if t == "number"@ {
            json_number(trim(val))
        } else if t == "boolean"@ {
            if trim(val) == "true"@ {
                Some(Tree::Bool(true))
            } else if trim(val) == "false"@ {
                Some(Tree::Bool(false))
            } else {
                None
            }
        } else if t == "object"@ || t == "array"@ {
            json_value(trim(val))
        } else {
            None
        },
        None => None,
    };
    match read {
        Some(t) => t,
        None => Tree::Str(val),
    }
}

/// The value of a parameter by its declared type.
pub fn type_value(ty: Option<&str>, val: &[char]) -> (v: serde_json::Value)
    ensures
        tree(v) == typed_value(
            match ty {
                Some(t) => Some(t@),
                None => None,
            },
            val@,
        ),
{
    let plain = string_of(val);
    let inner = trimmed(val);
    let text = string_of(inner.as_slice());
    match ty {
        Some(t) => {
            if same(t, "integer") {
                match read_integer(inner.as_slice()) {
                    Some(i) => integer(i),
                    None => string(plain.as_str()),
                }
            } else if same(t, "number") {
                match read_number(text.as_str()) {
                    Some(v) => v,
                    None => string(plain.as_str()),
                }
            } else if same(t, "boolean") {
                if same(text.as_str(), "true") {
                    boolean(true)
                } else if same(text.as_str(), "false") {
                    boolean(false)
                } else {
                    string(plain.as_str())
                }
            } else if same(t, "object") || same(t, "array") {
                match from_text(text.as_str()) {
                    Some(v) => v,
                    None => string(plain.as_str()),
                }
            } else {
                string(plain.as_str())
            }
        },
        None => string(plain.as_str()),
    }
}

// ---------------------------------------------------------------------------
// Declared types
// ---------------------------------------------------------------------------

/// The type that a tool's schema declares for a parameter.
pub open spec fn type_in(schema: Tree, key: Seq<char>) -> Option<Seq<char>> {
    match member_of(schema, "parameters"@) {
        Some(p) => match member_of(p, "properties"@) {
            Some(props) => match member_of(props, key) {
                Some(declared) => str_member(declared, "type"@),
                None => None,
            },
            None => None,
        },
        None => None,
    }
}

/// The type that the tools declare for a parameter of a tool: what the last
/// schema of that name says.
pub open spec fn declared_type(
    schemas: Seq<Seq<char>>,
    name: Seq<char>,
    key: Seq<char>,
) -> Option<Seq<char>>
    decreases schemas.len(),
{
    if schemas.len() == 0 {
        None
    } else {
        match json_value(schemas.last()) {
            Some(t) => if str_member(t, "name"@) == Some(name) {
                type_in(t, key)
            } else {
                declared_type(schemas.drop_last(), name, key)
            },
            None => declared_type(schemas.drop_last(), name, key),
        }
    }
}

/// The tools' schemas in readable form.
struct Declared {
    tools: Vec<serde_json::Value>,
}

/// What readable schemas declare, as [`declared_type`] of their texts.
spec fn type_among(tools: Seq<Tree>, name: Seq<char>, key: Seq<char>) -> Option<Seq<char>>
    decreases tools.len(),
{
    if tools.len() == 0 {
        None
    } else if str_member(tools.last(), "name"@) == Some(name) {
        type_in(tools.last(), key)
    } else {
        type_among(tools.drop_last(), name, key)
    }
}

spec fn held(v: Seq<serde_json::Value>) -> Seq<Tree> {
    v.map_values(|x: serde_json::Value| tree(x))
}

spec fn text_views(v: Seq<String>) -> Seq<Seq<char>> {
    v.map_values(|x: String| x@)
}

fn read_type<'a>(schema: &'a serde_json::Value, key: &str) -> (r: Option<&'a str>)
    ensures
        match r {
            Some(t) => type_in(tree(*schema), key@) == Some(t@),
            None => type_in(tree(*schema), key@) is None,
        },
{
    match member(schema, "parameters") {
        Some(p) => match member(p, "properties") {
            Some(props) => match member(props, key) {
                Some(declared) => get_str(declared, "type"),
                None => None,
            },
            None => None,
        },
        None => None,
    }
}

impl Declared {
    spec fn matches(&self, schemas: Seq<Seq<char>>) -> bool {
        forall|name: Seq<char>, key: Seq<char>|
            type_among(held(self.tools@), name, key) == #[trigger] declared_type(
                schemas,
                name,
                key,
            )
    }

    fn new(schemas: &[String]) -> (r: Declared)
        ensures
            r.matches(text_views(schemas@)),
    {
        let mut tools: Vec<serde_json::Value> = Vec::new();
        let mut i: usize = 0;
        while i < schemas.len()
            invariant
                i <= schemas@.len(),
                forall|name: Seq<char>, key: Seq<char>|
                    type_among(held(tools@), name, key) == #[trigger] declared_type(
                        text_views(schemas@.take(i as int)),
                        name,
                        key,
                    ),
            decreases schemas.len() - i,
        {
            let ghost before = held(tools@);
            let ghost front = text_views(schemas@.take(i as int));
            let ghost next = text_views(schemas@.take(i + 1));
            proof {
                assert(next.drop_last() =~= front);
                assert(next.last() == schemas@[i as int]@);
            }
            match from_text(schemas[i].as_str()) {
                Some(v) => {
                    tools.push(v);
                    proof {
                        assert(held(tools@).drop_last() =~= before);
                        assert(held(tools@).last() == tree(v));
                    }
                },
                None => {},
            }
            proof {
                assert forall|name: Seq<char>, key: Seq<char>| type_among(held(tools@), name, key)
                    == #[trigger] declared_type(next, name, key) by {
                    assert(type_among(before, name, key) == declared_type(front, name, key));
                }
            }
            i += 1;
        }
        proof {
            assert(schemas@.take(i as int) =~= schemas@);
        }
        Declared { tools }
    }

    fn type_of<'a>(&'a self, name: &str, key: &str) -> (r: Option<&'a str>)
        ensures
            match r {
                Some(t) => type_among(held(self.tools@), name@, key@) == Some(t@),
                None => type_among(held(self.tools@), name@, key@) is None,
            },
    {
        let mut i: usize = self.tools.len();
        proof {
            assert(held(self.tools@).take(i as int) =~= held(self.tools@));
        }
        while i > 0
            invariant
                i <= self.tools@.len(),
                type_among(held(self.tools@), name@, key@) == type_among(
                    held(self.tools@).take(i as int),
                    name@,
                    key@,
                ),
            decreases i,
        {
            proof {
                let front = held(self.tools@).take(i as int);
                assert(front.drop_last() =~= held(self.tools@).take(i - 1));
                assert(front.last() == tree(self.tools@[i - 1]));
            }
            match get_str(&self.tools[i - 1], "name") {
                Some(n) => {
                    if same(n, name) {
                        return read_type(&self.tools[i - 1], key);
                    }
                },
                None => {},
            }
            i -= 1;
        }
        None
    }
}

// ---------------------------------------------------------------------------
// Blocks
// ---------------------------------------------------------------------------

/// A value without the line breaks that frame it: at most one in front and one
/// behind.
pub open spec fn unframed(raw: Seq<char>) -> Seq<char> {
    let a = if raw.len() > 0 && raw[0] == '\n' {
        raw.skip(1)
    } else {
        raw
    };
    if a.len() > 0 && a.last() == '\n' {
        a.drop_last()
    } else {
        a
    }
}

/// The parameters of a body from `from` on, over those found before; of two
/// with one key the later stays. A parameter that never closes ends the search.
pub open spec fn params_from(
    body: Seq<char>,
    from: int,
    schemas: Seq<Seq<char>>,
    name: Seq<char>,
    found: Map<Seq<char>, Tree>,
) -> Map<Seq<char>, Tree>
    decreases body.len() - from,
    via params_decreases
{
    match find_from(body, "<parameter="@, from) {
        None => found,
        Some(tag) => match find_from(body, ">"@, tag + 11) {
            None => found,
            Some(close) => match find_from(body, "</parameter>"@, close + 1) {
                None => found,
                Some(end) => {
                    let key = trim(body.subrange(tag + 11, close));
                    let val = unframed(body.subrange(close + 1, end));
                    params_from(
                        body,
                        end + 12,
                        schemas,
                        name,
                        found.insert(key, typed_value(declared_type(schemas, name, key), val)),
                    )
                },
            },
        },
    }
}

#[via_fn]
proof fn params_decreases(
    body: Seq<char>,
    from: int,
    schemas: Seq<Seq<char>>,
    name: Seq<char>,
    found: Map<Seq<char>, Tree>,
) {
    lemma_param(body, from);
}

proof fn lemma_param(s: Seq<char>, from: int)
    ensures
        from >= 0 ==> match find_from(s, "<parameter="@, from) {
            None => true,
            Some(tag) => from <= tag && tag + 11 <= s.len() && match find_from(s, ">"@, tag + 11) {
                None => true,
                Some(close) => tag + 11 <= close < s.len() && match find_from(
                    s,
                    "</parameter>"@,
                    close + 1,
                ) {
                    None => true,
                    Some(end) => close + 1 <= end && end + 12 <= s.len(),
                },
            },
        },
        from < 0 ==> find_from(s, "<parameter="@, from) is None,
{
    reveal_strlit("<parameter=");
    reveal_strlit(">");
    reveal_strlit("</parameter>");
    if from >= 0 {
        lemma_find_from(s, "<parameter="@, from);
        if let Some(tag) = find_from(s, "<parameter="@, from) {
            lemma_find_from(s, ">"@, tag + 11);
            if let Some(close) = find_from(s, ">"@, tag + 11) {
                lemma_find_from(s, "</parameter>"@, close + 1);
            }
        }
    }
}

/// The calls of the function blocks of `s` from `from` on, those without a
/// name left out. A block that never closes ends the search.
pub open spec fn functions_from(s: Seq<char>, from: int, schemas: Seq<Seq<char>>) -> Seq<
    (Seq<char>, Seq<char>),
>
    decreases s.len() - from,
    via functions_decreases
{
    match find_from(s, "<function="@, from) {
        None => Seq::empty(),
        Some(tag) => match find_from(s, ">"@, tag + 10) {
            None => Seq::empty(),
            Some(close) => match find_from(s, "</function>"@, close + 1) {
                None => Seq::empty(),
                Some(end) => {
                    let name = trim(s.subrange(tag + 10, close));
                    let body = s.subrange(close + 1, end);
                    let rest = functions_from(s, end + 11, schemas);
                    if name.len() == 0 {
                        rest
                    } else {
                        let args = params_from(body, 0, schemas, name, Map::empty());
                        seq![(name, json_text(Tree::Obj(args)))] + rest
                    }
                },
            },
        },
    }
}

#[via_fn]
proof fn functions_decreases(s: Seq<char>, from: int, schemas: Seq<Seq<char>>) {
    lemma_function(s, from);
}

proof fn lemma_function(s: Seq<char>, from: int)
    ensures
        from >= 0 ==> match find_from(s, "<function="@, from) {
            None => true,
            Some(tag) => from <= tag && tag + 10 <= s.len() && match find_from(s, ">"@, tag + 10) {
                None => true,
                Some(close) => tag + 10 <= close < s.len() && match find_from(
                    s,
                    "</function>"@,
                    close + 1,
                ) {
                    None => true,
                    Some(end) => close + 1 <= end && end + 11 <= s.len(),
                },
            },
        },
        from < 0 ==> find_from(s, "<function="@, from) is None,
{
    reveal_strlit("<function=");
    reveal_strlit(">");
    reveal_strlit("</function>");
    if from >= 0 {
        lemma_find_from(s, "<function="@, from);
        if let Some(tag) = find_from(s, "<function="@, from) {
            lemma_find_from(s, ">"@, tag + 10);
            if let Some(close) = find_from(s, ">"@, tag + 10) {
                lemma_find_from(s, "</function>"@, close + 1);
            }
        }
    }
}

fn strip_frame(raw: &[char]) -> (r: Vec<char>)
    ensures
        r@ == unframed(raw@),
{
    let start: usize = if raw.len() > 0 && raw[0] == '\n' {
        1
    } else {
        0
    };
    let end: usize = if raw.len() > start && raw[raw.len() - 1] == '\n' {
        raw.len() - 1
    } else {
        raw.len()
    };
    let r = slice_of(raw, start, end);
    proof {
        let a = if start == 1 {
            raw@.skip(1)
        } else {
            raw@
        };
        assert(a =~= raw@.skip(start as int));
        assert(r@ =~= unframed(raw@));
    }
    r
}

fn read_params(body: &[char], declared: &Declared, name: &str, schemas: Ghost<Seq<Seq<char>>>) -> (r:
    Object)
    requires
        declared.matches(schemas@),
    ensures
        r.wf(),
        r@ == params_from(body@, 0, schemas@, name@, Map::empty()),
{
    let open_tag = chars_of("<parameter=");
    let angle = chars_of(">");
    let close_tag = chars_of("</parameter>");
    let mut args = Object::new();
    let mut at: usize = 0;
    loop
        invariant
            declared.matches(schemas@),
            args.wf(),
            open_tag@ == "<parameter="@,
            angle@ == ">"@,
            close_tag@ == "</parameter>"@,
            at <= body@.len(),
            params_from(body@, 0, schemas@, name@, Map::empty()) == params_from(
                body@,
                at as int,
                schemas@,
                name@,
                args@,
            ),
        decreases body.len() - at,
    {
        proof {
            lemma_param(body@, at as int);
        }
        let tag = match search(body, open_tag.as_slice(), at) {
            Some(p) => p,
            None => {
                return args;
            },
        };
        let close = match search(body, angle.as_slice(), tag + 11) {
            Some(p) => p,
            None => {
                return args;
            },
        };
        let end = match search(body, close_tag.as_slice(), close + 1) {
            Some(p) => p,
            None => {
                return args;
            },
        };
        let key_chars = trimmed(slice_of(body, tag + 11, close).as_slice());
        let key = string_of(key_chars.as_slice());
        let val = strip_frame(slice_of(body, close + 1, end).as_slice());
        let ty = declared.type_of(name, key.as_str());
        proof {
            assert(declared_type(schemas@, name@, key@) == type_among(
                held(declared.tools@),
                name@,
                key@,
            ));
        }
        args.put(key.as_str(), type_value(ty, val.as_slice()));
        at = end + 12;
    }
}

/// The calls of bare `<function=…>` blocks in a text, in order, each as its
/// name and its arguments' JSON.
pub fn parse_coder_xml_calls(text: &str, tool_schemas: &[String]) -> (r: Vec<(String, String)>)
    ensures
        calls_found(r@) == functions_from(
            text@,
            0,
            tool_schemas@.map_values(|x: String| x@),
        ),
{
    let ghost schemas = tool_schemas@.map_values(|x: String| x@);
    let declared = Declared::new(tool_schemas);
    let s = chars_of(text);
    let open_tag = chars_of("<function=");
    let angle = chars_of(">");
    let close_tag = chars_of("</function>");
    let mut out: Vec<(String, String)> = Vec::new();
    let mut at: usize = 0;
    proof {
        assert(text_views(tool_schemas@) =~= schemas);
        assert(calls_found(out@) + functions_from(s@, 0, schemas) =~= functions_from(
            s@,
            0,
            schemas,
        ));
    }
    loop
        invariant
            s@ == text@,
            declared.matches(schemas),
            open_tag@ == "<function="@,
            angle@ == ">"@,
            close_tag@ == "</function>"@,
            at <= s@.len(),
            functions_from(s@, 0, schemas) == calls_found(out@) + functions_from(
                s@,
                at as int,
                schemas,
            ),
            schemas == tool_schemas@.map_values(|x: String| x@),
        decreases s.len() - at,
    {
        proof {
            lemma_function(s@, at as int);
            assert(calls_found(out@) + Seq::<(Seq<char>, Seq<char>)>::empty() =~= calls_found(
                out@,
            ));
        }
        let tag = match search(s.as_slice(), open_tag.as_slice(), at) {
            Some(p) => p,
            None => {
                return out;
            },
        };
        let close = match search(s.as_slice(), angle.as_slice(), tag + 10) {
            Some(p) => p,
            None => {
                return out;
            },
        };
        let end = match search(s.as_slice(), close_tag.as_slice(), close + 1) {
            Some(p) => p,
            None => {
                return out;
            },
        };
        let name_chars = trimmed(slice_of(s.as_slice(), tag + 10, close).as_slice());
        if name_chars.len() > 0 {
            let name = string_of(name_chars.as_slice());
            let body = slice_of(s.as_slice(), close + 1, end);
            let args = read_params(body.as_slice(), &declared, name.as_str(), Ghost(schemas));
            let value = args.build();
            let text_args = to_text(&value);
            let ghost before = out@;
            out.push((name, text_args));
            proof {
                let x = (name@, text_args@);
                assert(calls_found(before) + (seq![x] + functions_from(s@, end + 11, schemas))
                    =~= calls_found(out@) + functions_from(s@, end + 11, schemas));
            }
        }
        at = end + 11;
    }
}

// ---------------------------------------------------------------------------
// What is read back
// ---------------------------------------------------------------------------

proof fn lemma_digits_of(n: nat)
    ensures
        digits_value(dec(n)) == Some(n as int),
        digit(dec(n)[0]),
        dec(n).len() > 0,
    decreases n,
{
    if n < 10 {
        assert(dec(n) =~= seq![dec_digit(n as int)]);
    } else {
        lemma_digits_of(n / 10);
        assert(dec(n).drop_last() =~= dec(n / 10));
        assert(dec(n)[0] == dec(n / 10)[0]);
        assert(dec(n).last() == dec_digit((n % 10) as int));
        assert(n == (n / 10) * 10 + n % 10);
    }
}

/// An integer reads back from its decimal digits, with a minus where it is
/// negative and a plus where one is written; one that 64 bits cannot hold is
/// not read.
pub proof fn law_an_integer_reads_back(n: nat)
    ensures
        n <= i64::MAX ==> integer_value(dec(n)) == Some(n as int),
        n <= i64::MAX ==> integer_value(seq!['+'] + dec(n)) == Some(n as int),
        n <= i64::MAX + 1 ==> integer_value(seq!['-'] + dec(n)) == Some(-(n as int)),
        n > i64::MAX ==> integer_value(dec(n)) is None && integer_value(seq!['+'] + dec(n)) is None,
        n > i64::MAX + 1 ==> integer_value(seq!['-'] + dec(n)) is None,
{
    lemma_digits_of(n);
    assert((seq!['+'] + dec(n)).skip(1) =~= dec(n));
    assert((seq!['-'] + dec(n)).skip(1) =~= dec(n));
}

proof fn lemma_digits_only(s: Seq<char>, i: int)
    requires
        digits_value(s) is Some,
        0 <= i < s.len(),
    ensures
        digit(s[i]),
    decreases s.len(),
{
    if i < s.len() - 1 {
        lemma_digits_only(s.drop_last(), i);
    }
}

/// What reads as an integer is a sign at most and decimal digits, at least one.
pub proof fn law_only_digits_read_as_an_integer(s: Seq<char>, i: int)
    requires
        integer_value(s) is Some,
    ensures
        s.len() > 0,
        0 < i < s.len() ==> '0' <= s[i] <= '9',
        '0' <= s[0] <= '9' || (s.len() > 1 && (s[0] == '-' || s[0] == '+')),
{
    if s[0] == '-' || s[0] == '+' {
        if 0 < i < s.len() {
            lemma_digits_only(s.skip(1), i - 1);
        }
    } else {
        lemma_digits_only(s, 0);
        if 0 < i < s.len() {
            lemma_digits_only(s, i);
        }
    }
}

/// A value is read as its declared type where it spells one, with white space
/// around it or not, and is its own text otherwise: where nothing or another
/// type is declared, and where it does not spell a value of that type.
pub proof fn law_a_value_is_of_its_declared_type(ty: Option<Seq<char>>, val: Seq<char>, n: int)
    ensures
        ty is None ==> typed_value(ty, val) == Tree::Str(val),
        ty matches Some(t) ==> {
            &&& t == "string"@ ==> typed_value(ty, val) == Tree::Str(val)
            &&& t == "integer"@ && integer_value(trim(val)) == Some(n) ==> typed_value(ty, val)
                == Tree::Int(n)
            &&& t == "integer"@ && integer_value(trim(val)) is None ==> typed_value(ty, val)
                == Tree::Str(val)
            &&& t == "boolean"@ && trim(val) == "true"@ ==> typed_value(ty, val) == Tree::Bool(true)
            &&& t == "boolean"@ && trim(val) == "false"@ ==> typed_value(ty, val) == Tree::Bool(
                false,
            )
            &&& t == "boolean"@ && trim(val) != "true"@ && trim(val) != "false"@ ==> typed_value(
                ty,
                val,
            ) == Tree::Str(val)
            &&& t == "number"@ && json_number(trim(val)) is Some ==> typed_value(ty, val)
                == json_number(trim(val))->0
            &&& t == "number"@ && json_number(trim(val)) is None ==> typed_value(ty, val)
                == Tree::Str(val)
            &&& (t == "object"@ || t == "array"@) && json_value(trim(val)) is Some ==> typed_value(
                ty,
                val,
            ) == json_value(trim(val))->0
            &&& (t == "object"@ || t == "array"@) && json_value(trim(val)) is None ==> typed_value(
                ty,
                val,
            ) == Tree::Str(val)
        },
{
    reveal_strlit("integer");
    reveal_strlit("number");
    reveal_strlit("boolean");
    reveal_strlit("string");
    reveal_strlit("object");
    reveal_strlit("array");
    reveal_strlit("true");
    reveal_strlit("false");
    assert("integer"@[0] == 'i' && "number"@[0] == 'n' && "boolean"@[0] == 'b' && "string"@[0] == 's'
        && "object"@[0] == 'o' && "array"@[0] == 'a' && "true"@[0] == 't' && "false"@[0] == 'f');
}

/// A value loses the line break in front of it and the one behind it, and
/// nothing else.
pub proof fn law_a_value_loses_its_frame(v: Seq<char>)
    ensures
        unframed(seq!['\n'] + v + seq!['\n']) == v,
        v.len() > 0 && v[0] != '\n' && v.last() != '\n' ==> unframed(v) == v,
        v.len() > 0 && v.last() != '\n' ==> unframed(seq!['\n'] + v) == v,
        v.len() > 0 && v[0] != '\n' ==> unframed(v + seq!['\n']) == v,
        v.len() == 0 ==> unframed(v) == v,
{
    let w = seq!['\n'] + v + seq!['\n'];
    assert(w.skip(1).drop_last() =~= v);
    assert((seq!['\n'] + v).skip(1) =~= v);
    assert((v + seq!['\n']).drop_last() =~= v);
}

/// What a parameter is declared as is the last word of the tools that bear the
/// name: a readable schema of that name decides, any other leaves it as it was.
pub proof fn law_the_last_schema_declares(
    schemas: Seq<Seq<char>>,
    schema: Seq<char>,
    name: Seq<char>,
    key: Seq<char>,
)
    ensures
        declared_type(Seq::empty(), name, key) is None,
        json_value(schema) is None ==> declared_type(schemas.push(schema), name, key) == declared_type(
            schemas,
            name,
            key,
        ),
        json_value(schema) matches Some(t) ==> {
            &&& str_member(t, "name"@) == Some(name) ==> declared_type(
                schemas.push(schema),
                name,
                key,
            ) == (match member_of(t, "parameters"@) {
                Some(p) => match member_of(p, "properties"@) {
                    Some(q) => match member_of(q, key) {
                        Some(d) => str_member(d, "type"@),
                        None => None,
                    },
                    None => None,
                },
                None => None,
            })
            &&& str_member(t, "name"@) != Some(name) ==> declared_type(
                schemas.push(schema),
                name,
                key,
            ) == declared_type(schemas, name, key)
        },
{
    assert(schemas.push(schema).drop_last() =~= schemas);
}

/// Parameters are read in order: the next is what stands between its tags,
/// under the name in the first of them, and the search goes on behind it. Where
/// none opens there is no more.
pub proof fn law_parameters_are_read_in_order(
    body: Seq<char>,
    from: int,
    tag: int,
    close: int,
    end: int,
    schemas: Seq<Seq<char>>,
    name: Seq<char>,
    found: Map<Seq<char>, Tree>,
)
    requires
        0 <= from,
    ensures
        none_from(body, "<parameter="@, from) ==> params_from(body, from, schemas, name, found)
            == found,
        first_at(body, "<parameter="@, from, tag) && first_at(
            body,
            ">"@,
            tag + "<parameter="@.len(),
            close,
        ) && first_at(body, "</parameter>"@, close + 1, end) ==> params_from(
            body,
            from,
            schemas,
            name,
            found,
        ) == ({
            let key = trim(body.subrange(tag + "<parameter="@.len(), close));
            let val = unframed(body.subrange(close + 1, end));
            params_from(
                body,
                end + "</parameter>"@.len(),
                schemas,
                name,
                found.insert(key, typed_value(declared_type(schemas, name, key), val)),
            )
        }),
        first_at(body, "<parameter="@, from, tag) && first_at(
            body,
            ">"@,
            tag + "<parameter="@.len(),
            close,
        ) && none_from(body, "</parameter>"@, close + 1) ==> params_from(
            body,
            from,
            schemas,
            name,
            found,
        ) == found,
{
    reveal_strlit("<parameter=");
    reveal_strlit("</parameter>");
    assert("<parameter="@.len() == 11 && "</parameter>"@.len() == 12);
    law_a_search_finds_the_first_place(body, "<parameter="@, from, tag);
    if first_at(body, "<parameter="@, from, tag) {
        law_a_search_finds_the_first_place(body, ">"@, tag + 11, close);
        if first_at(body, ">"@, tag + 11, close) {
            law_a_search_finds_the_first_place(body, "</parameter>"@, close + 1, end);
        }
    }
}

/// Function blocks are read in order: the next is a call of the name in its
/// first tag with the parameters that stand in it, unless the name is blank, and
/// the search goes on behind it. Where none opens there is no more.
pub proof fn law_functions_are_read_in_order(
    s: Seq<char>,
    from: int,
    tag: int,
    close: int,
    end: int,
    schemas: Seq<Seq<char>>,
)
    requires
        0 <= from,
    ensures
        none_from(s, "<function="@, from) ==> functions_from(s, from, schemas).len() == 0,
        first_at(s, "<function="@, from, tag) && first_at(s, ">"@, tag + "<function="@.len(), close)
            && first_at(s, "</function>"@, close + 1, end) ==> functions_from(s, from, schemas)
            == ({
            let name = trim(s.subrange(tag + "<function="@.len(), close));
            let args = params_from(s.subrange(close + 1, end), 0, schemas, name, Map::empty());
            let rest = functions_from(s, end + "</function>"@.len(), schemas);
            if name.len() == 0 {
                rest
            } else {
                seq![(name, json_text(Tree::Obj(args)))] + rest
            }
        }),
        first_at(s, "<function="@, from, tag) && first_at(s, ">"@, tag + "<function="@.len(), close)
            && none_from(s, "</function>"@, close + 1) ==> functions_from(s, from, schemas).len() == 0,
{
    reveal_strlit("<function=");
    reveal_strlit("</function>");
    assert("<function="@.len() == 10 && "</function>"@.len() == 11);
    law_a_search_finds_the_first_place(s, "<function="@, from, tag);
    if first_at(s, "<function="@, from, tag) {
        law_a_search_finds_the_first_place(s, ">"@, tag + 10, close);
        if first_at(s, ">"@, tag + 10, close) {
            law_a_search_finds_the_first_place(s, "</function>"@, close + 1, end);
        }
    }
}

} // verus!
