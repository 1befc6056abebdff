use vstd::prelude::*;
use vstd::string::StrSliceExecFns;

verus! {

/// A JSON document, kept as an ordered key/value tree so that a configuration
/// payload round-trips without loss of unknown fields. A number keeps its
/// source text, which is never interpreted here.
pub enum Json {
    Null,
    Bool(bool),
    Num(String),
    Str(String),
    Arr(Vec<Json>),
    Obj(Vec<(String, Json)>),
}

/// The lowercase hexadecimal digit for a value below sixteen.
pub open spec fn hex_lower(n: u32) -> char {
    if n < 10 {
        ((n + 48) as u8) as char
    } else {
        ((n + 87) as u8) as char
    }
}

/// How one character is written inside a JSON string literal: the quote and
/// the backslash get a backslash, the common control characters their short
/// escapes, any other control character a `\u00XX` escape.
pub open spec fn escaped_char(c: char) -> Seq<char> {
    if c == '"' {
        seq!['\\', '"']
    } else if c == '\\' {
        seq!['\\', '\\']
    } else if c == '\u{8}' {
        seq!['\\', 'b']
    } else if c == '\t' {
        seq!['\\', 't']
    } else if c == '\n' {
        seq!['\\', 'n']
    } else if c == '\u{c}' {
        seq!['\\', 'f']
    } else if c == '\r' {
        seq!['\\', 'r']
    } else if (c as u32) < 32 {
        seq!['\\', 'u', '0', '0', hex_lower((c as u32) / 16), hex_lower((c as u32) % 16)]
    } else {
        seq![c]
    }
}

/// The body of a JSON string literal: each character escaped as needed.
pub open spec fn escaped(s: Seq<char>) -> Seq<char>
    decreases s.len(),
{
    if s.len() == 0 {
        Seq::<char>::empty()
    } else {
        escaped_char(s[0]) + escaped(s.drop_first())
    }
}

/// A JSON string literal: the escaped text between double quotes.
pub open spec fn quoted(s: Seq<char>) -> Seq<char> {
    seq!['"'] + escaped(s) + seq!['"']
}

/// The text a JSON value is serialized to.
pub open spec fn rendered(j: Json) -> Seq<char>
    decreases j,
{
    match j {
        Json::Null => "null"@,
        Json::Bool(b) => if b {
            "true"@
        } else {
            "false"@
        },
        Json::Num(s) => s@,
        Json::Str(s) => quoted(s@),
        Json::Arr(items) => seq!['['] + rendered_items(items@) + seq![']'],
        Json::Obj(pairs) => seq!['{'] + rendered_pairs(pairs@) + seq!['}'],
    }
}

/// The comma-separated serialization of an array's items.
pub open spec fn rendered_items(items: Seq<Json>) -> Seq<char>
    decreases items,
{
    if items.len() == 0 {
        Seq::<char>::empty()
    } else if items.len() == 1 {
        rendered(items[0])
    } else {
        rendered(items[0]) + seq![','] + rendered_items(items.drop_first())
    }
}

/// The comma-separated serialization of an object's members, each a quoted
/// key, a colon, and the value.
pub open spec fn rendered_pairs(pairs: Seq<(String, Json)>) -> Seq<char>
    decreases pairs,
{
    if pairs.len() == 0 {
        Seq::<char>::empty()
    } else if pairs.len() == 1 {
        rendered_pair(pairs[0])
    } else {
        rendered_pair(pairs[0]) + seq![','] + rendered_pairs(pairs.drop_first())
    }
}

/// One object member: `"key":value`.
pub open spec fn rendered_pair(p: (String, Json)) -> Seq<char>
    decreases p,
{
    quoted(p.0@) + seq![':'] + rendered(p.1)
}

pub proof fn lemma_escaped_snoc(s: Seq<char>, c: char)
    ensures
        escaped(s.push(c)) == escaped(s) + escaped_char(c),
    decreases s.len(),
{
    if s.len() == 0 {
        assert(s.push(c)[0] == c);
        assert(s.push(c).drop_first() =~= Seq::<char>::empty());
        assert(escaped(Seq::<char>::empty()) =~= Seq::<char>::empty());
        assert(escaped(s.push(c)) =~= escaped(s) + escaped_char(c));
    } else {
        assert(s.push(c).drop_first() =~= s.drop_first().push(c));
        lemma_escaped_snoc(s.drop_first(), c);
        assert(escaped(s.push(c)) =~= escaped(s) + escaped_char(c));
    }
}

pub proof fn lemma_rendered_items_snoc(items: Seq<Json>, j: Json)
    ensures
        rendered_items(items.push(j)) == if items.len() == 0 {
            rendered(j)
        } else {
            rendered_items(items) + seq![','] + rendered(j)
        },
    decreases items.len(),
{
    if items.len() == 0 {
        assert(items.push(j)[0] == j);
        assert(rendered_items(items.push(j)) == rendered(j));
    } else if items.len() == 1 {
        assert(items.push(j)[0] == items[0]);
        assert(items.push(j).drop_first() =~= seq![j]);
        assert(rendered_items(seq![j]) == rendered(j));
        assert(rendered_items(items) == rendered(items[0]));
        assert(rendered_items(items.push(j)) =~= rendered_items(items) + seq![','] + rendered(j));
    } else {
        assert(items.push(j)[0] == items[0]);
        assert(items.push(j).drop_first() =~= items.drop_first().push(j));
        lemma_rendered_items_snoc(items.drop_first(), j);
        assert(rendered_items(items.push(j)) =~= rendered_items(items) + seq![','] + rendered(j));
    }
}

pub proof fn lemma_rendered_pairs_snoc(pairs: Seq<(String, Json)>, p: (String, Json))
    ensures
        rendered_pairs(pairs.push(p)) == if pairs.len() == 0 {
            rendered_pair(p)
        } else {
            rendered_pairs(pairs) + seq![','] + rendered_pair(p)
        },
    decreases pairs.len(),
{
    if pairs.len() == 0 {
        assert(pairs.push(p)[0] == p);
        assert(rendered_pairs(pairs.push(p)) == rendered_pair(p));
    } else if pairs.len() == 1 {
        assert(pairs.push(p)[0] == pairs[0]);
        assert(pairs.push(p).drop_first() =~= seq![p]);
        assert(rendered_pairs(seq![p]) == rendered_pair(p));
        assert(rendered_pairs(pairs) == rendered_pair(pairs[0]));
        assert(rendered_pairs(pairs.push(p)) =~= rendered_pairs(pairs) + seq![','] + rendered_pair(
            p,
        ));
    } else {
        assert(pairs.push(p)[0] == pairs[0]);
        assert(pairs.push(p).drop_first() =~= pairs.drop_first().push(p));
        lemma_rendered_pairs_snoc(pairs.drop_first(), p);
        assert(rendered_pairs(pairs.push(p)) =~= rendered_pairs(pairs) + seq![','] + rendered_pair(
            p,
        ));
    }
}

fn hex_lower_digit(n: u32) -> (c: char)
    requires
        n < 16,
    ensures
        c == hex_lower(n),
{
    if n < 10 {
        ((n + 48) as u8) as char
    } else {
        ((n + 87) as u8) as char
    }
}

/// Whether two string slices hold the same characters.
pub fn str_eq(a: &str, b: &str) -> (r: bool)
    ensures
        r == (a@ == b@),
{
    let n = a.unicode_len();
    if n != b.unicode_len() {
        return false;
    }
    let mut i: usize = 0;
    while i < n
        invariant
            i <= n,
            n == a@.len(),
            n == b@.len(),
            forall|k: int| 0 <= k < i ==> a@[k] == b@[k],
        decreases n - i,
    {
        if a.get_char(i) != b.get_char(i) {
            return false;
        }
        i += 1;
    }
    proof {
        assert(a@ =~= b@);
    }
    true
}

/// Writes a string as a JSON string literal, quoted and escaped.
fn quote_into(s: &str, out: &mut Vec<char>)
    ensures
        final(out)@ == old(out)@ + quoted(s@),
{
    out.push('"');
    let n = s.unicode_len();
    let mut i: usize = 0;
    while i < n
        invariant
            i <= n,
            n == s@.len(),
            out@ == old(out)@ + seq!['"'] + escaped(s@.subrange(0, i as int)),
        decreases n - i,
    {
        let c = s.get_char(i);
        if c == '"' {
            out.push('\\');
            out.push('"');
        } else if c == '\\' {
            out.push('\\');
            out.push('\\');
        } else if c == '\u{8}' {
            out.push('\\');
            out.push('b');
        } else if c == '\t' {
            out.push('\\');
            out.push('t');
        } else if c == '\n' {
            out.push('\\');
            out.push('n');
        } else if c == '\u{c}' {
            out.push('\\');
            out.push('f');
        } else if c == '\r' {
            out.push('\\');
            out.push('r');
        } else if (c as u32) < 32 {
            out.push('\\');
            out.push('u');
            out.push('0');
            out.push('0');
            out.push(hex_lower_digit((c as u32) / 16));
            out.push(hex_lower_digit((c as u32) % 16));
        } else {
            out.push(c);
        }
        proof {
            lemma_escaped_snoc(s@.subrange(0, i as int), s@[i as int]);
            assert(s@.subrange(0, i + 1 as int) =~= s@.subrange(0, i as int).push(s@[i as int]));
            assert(out@ =~= old(out)@ + seq!['"'] + escaped(s@.subrange(0, i + 1 as int)));
        }
        i += 1;
    }
    out.push('"');
    proof {
        assert(s@.subrange(0, s@.len() as int) =~= s@);
        assert(out@ =~= old(out)@ + quoted(s@));
    }
}

/// Writes the serialization of a JSON value.
fn render_into(j: &Json, out: &mut Vec<char>)
    ensures
        final(out)@ == old(out)@ + rendered(*j),
    decreases j,
{
    match j {
        Json::Null => {
            out.push('n');
            out.push('u');
            out.push('l');
            out.push('l');
            proof {
                reveal_strlit("null");
                assert(out@ =~= old(out)@ + "null"@);
            }
        },
        Json::Bool(b) => {
            if *b {
                out.push('t');
                out.push('r');
                out.push('u');
                out.push('e');
                proof {
                    reveal_strlit("true");
                    assert(out@ =~= old(out)@ + "true"@);
                }
            } else {
                out.push('f');
                out.push('a');
                out.push('l');
                out.push('s');
                out.push('e');
                proof {
                    reveal_strlit("false");
                    assert(out@ =~= old(out)@ + "false"@);
                }
            }
        },
        Json::Num(s) => {
            let n = s.as_str().unicode_len();
            let mut i: usize = 0;
            while i < n
                invariant
                    i <= n,
                    n == s@.len(),
                    out@ == old(out)@ + s@.subrange(0, i as int),
                decreases n - i,
            {
                out.push(s.as_str().get_char(i));
                proof {
                    assert(s@.subrange(0, i + 1 as int) =~= s@.subrange(0, i as int).push(
                        s@[i as int],
                    ));
                    assert(out@ =~= old(out)@ + s@.subrange(0, i + 1 as int));
                }
                i += 1;
            }
            proof {
                assert(s@.subrange(0, s@.len() as int) =~= s@);
            }
        },
        Json::Str(s) => {
            quote_into(s.as_str(), out);
        },
        Json::Arr(items) => {
            out.push('[');
            render_items_into(items, out);
            out.push(']');
            proof {
                assert(out@ =~= old(out)@ + rendered(*j));
            }
        },
        Json::Obj(pairs) => {
            out.push('{');
            render_pairs_into(pairs, out);
            out.push('}');
            proof {
                assert(out@ =~= old(out)@ + rendered(*j));
            }
        },
    }
}

/// Writes an array's items, comma-separated.
fn render_items_into(items: &Vec<Json>, out: &mut Vec<char>)
    ensures
        final(out)@ == old(out)@ + rendered_items(items@),
    decreases items@,
{
    let mut i: usize = 0;
    while i < items.len()
        invariant
            i <= items@.len(),
            out@ == old(out)@ + rendered_items(items@.subrange(0, i as int)),
        decreases items@.len() - i,
    {
        if i > 0 {
            out.push(',');
        }
        render_into(&items[i], out);
        proof {
            lemma_rendered_items_snoc(items@.subrange(0, i as int), items@[i as int]);
            assert(items@.subrange(0, i + 1 as int) =~= items@.subrange(0, i as int).push(
                items@[i as int],
            ));
            assert(out@ =~= old(out)@ + rendered_items(items@.subrange(0, i + 1 as int)));
        }
        i += 1;
    }
    proof {
        assert(items@.subrange(0, items@.len() as int) =~= items@);
    }
}

/// Writes one object member, `"key":value`.
fn render_pair_into(p: &(String, Json), out: &mut Vec<char>)
    ensures
        final(out)@ == old(out)@ + rendered_pair(*p),
    decreases p,
{
    quote_into(p.0.as_str(), out);
    out.push(':');
    render_into(&p.1, out);
    proof {
        assert(out@ =~= old(out)@ + rendered_pair(*p));
    }
}

/// Writes an object's members, comma-separated.
fn render_pairs_into(pairs: &Vec<(String, Json)>, out: &mut Vec<char>)
    ensures
        final(out)@ == old(out)@ + rendered_pairs(pairs@),
    decreases pairs@,
{
    let mut i: usize = 0;
    while i < pairs.len()
        invariant
            i <= pairs@.len(),
            out@ == old(out)@ + rendered_pairs(pairs@.subrange(0, i as int)),
        decreases pairs@.len() - i,
    {
        if i > 0 {
            out.push(',');
        }
        render_pair_into(&pairs[i], out);
        proof {
            lemma_rendered_pairs_snoc(pairs@.subrange(0, i as int), pairs@[i as int]);
            assert(pairs@.subrange(0, i + 1 as int) =~= pairs@.subrange(0, i as int).push(
                pairs@[i as int],
            ));
            assert(out@ =~= old(out)@ + rendered_pairs(pairs@.subrange(0, i + 1 as int)));
        }
        i += 1;
    }
    proof {
        assert(pairs@.subrange(0, pairs@.len() as int) =~= pairs@);
    }
}

/// Serializes a JSON value to its character sequence.
pub fn render_json(j: &Json) -> (r: Vec<char>)
    ensures
        r@ == rendered(*j),
{
    let mut out: Vec<char> = Vec::new();
    render_into(j, &mut out);
    out
}

/// The value under a key in an object's member list; the first occurrence
/// wins, as the members of a parsed object carry each key once.
pub open spec fn member(pairs: Seq<(String, Json)>, key: Seq<char>) -> Option<Json>
    decreases pairs.len(),
{
    if pairs.len() == 0 {
        Option::None
    } else if pairs[0].0@ == key {
        Option::Some(pairs[0].1)
    } else {
        member(pairs.drop_first(), key)
    }
}

/// Looks a key up in an object's member list.
pub fn obj_get<'a>(pairs: &'a Vec<(String, Json)>, key: &str) -> (r: Option<&'a Json>)
    ensures
        match r {
            Option::Some(v) => member(pairs@, key@) == Option::Some(*v),
            Option::None => member(pairs@, key@) is None,
        },
{
    proof {
        assert(pairs@.subrange(0, pairs@.len() as int) =~= pairs@);
    }
    let mut i: usize = 0;
    while i < pairs.len()
        invariant
            i <= pairs@.len(),
            member(pairs@, key@) == member(pairs@.subrange(i as int, pairs@.len() as int), key@),
        decreases pairs@.len() - i,
    {
        proof {
            assert(pairs@.subrange(i as int, pairs@.len() as int)[0] == pairs@[i as int]);
            assert(pairs@.subrange(i as int, pairs@.len() as int).drop_first() =~= pairs@.subrange(
                i + 1 as int,
                pairs@.len() as int,
            ));
        }
        if str_eq(pairs[i].0.as_str(), key) {
            return Option::Some(&pairs[i].1);
        }
        i += 1;
    }
    proof {
        assert(pairs@.subrange(pairs@.len() as int, pairs@.len() as int).len() == 0);
    }
    Option::None
}

} // verus!
