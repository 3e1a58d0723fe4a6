//! The text that the display shows: one line per field key, in the order of
//! the keys.
use vstd::prelude::*;
use vstd::string::StringExecFns;
use crate::json::{pretty_json, to_pretty};
use crate::projection::Projection;

verus! {

/// The label that starts a key's line: the key in double quotes, a colon and
/// a space.
pub open spec fn key_label(k: Seq<char>) -> Seq<char> {
    seq!['"'] + k + seq!['"', ':', ' ']
}

/// The line of a key: its label, then the printed value where the key is
/// present (`Some`) or the word `unknown` where it is absent, then a newline.
pub open spec fn line_of(k: Seq<char>, text: Option<Seq<char>>) -> Seq<char> {
    match text {
        Some(t) => key_label(k) + t + seq!['\n'],
        None => key_label(k) + seq!['u', 'n', 'k', 'n', 'o', 'w', 'n', '\n'],
    }
}

/// The line of key `k` over projection `p`, or `None` where the value of `k`
/// cannot be printed.
pub open spec fn formatted_line(k: Seq<char>, p: Map<Seq<char>, serde_json::Value>) -> Option<
    Seq<char>,
> {
    if p.contains_key(k) {
        match pretty_json(p[k]) {
            Some(t) => Some(line_of(k, Some(t))),
            None => None,
        }
    } else {
        Some(line_of(k, None))
    }
}

/// The lines of all keys, concatenated in the order of the keys, or `None`
/// where one of the values cannot be printed.
pub open spec fn rendered(keys: Seq<Seq<char>>, p: Map<Seq<char>, serde_json::Value>) -> Option<
    Seq<char>,
>
    decreases keys.len(),
{
    if keys.len() == 0 {
        Some(Seq::empty())
    } else {
        match (rendered(keys.drop_last(), p), formatted_line(keys.last(), p)) {
            (Some(a), Some(b)) => Some(a + b),
            _ => None,
        }
    }
}

/// The line of `key`, given the printed text of its value, or `None` where
/// the key is absent.
pub fn format_entry(key: &String, text: Option<&String>) -> (r: String)
    ensures
        r@ == line_of(
            key@,
            match text {
                Some(t) => Some(t@),
                None => None,
            },
        ),
{
    proof {
        reveal_strlit("\"");
        reveal_strlit("\": ");
        reveal_strlit("\n");
        reveal_strlit("unknown\n");
    }
    let mut r = String::from_str("\"");
    r.append(key.as_str());
    r.append("\": ");
    match text {
        Some(t) => {
            r.append(t.as_str());
            r.append("\n");
        },
        None => {
            r.append("unknown\n");
        },
    }
    assert(r@ =~= line_of(
        key@,
        match text {
            Some(t) => Some(t@),
            None => None,
        },
    ));
    r
}

/// The line of `key` over `map`: its value printed where it is present, the
/// word `unknown` where it is absent; `None` where printing the value fails.
pub fn format_by_key(key: &String, map: &Projection) -> (r: Option<String>)
    requires
        map.wf(),
    ensures
        r is Some <==> formatted_line(key@, map@) is Some,
        r is Some ==> r->Some_0@ == formatted_line(key@, map@)->Some_0,
{
    match map.get(key) {
        Some(value) => match to_pretty(value) {
            Some(text) => Some(format_entry(key, Some(&text))),
            None => None,
        },
        None => Some(format_entry(key, None)),
    }
}

/// The display buffer: the lines of `keys` over `map`, concatenated in the
/// order of `keys`; `None` where one of the values cannot be printed.
pub fn render_buffer(keys: &Vec<String>, map: &Projection) -> (r: Option<String>)
    requires
        map.wf(),
    ensures
        r is Some <==> rendered(keys@.map_values(|k: String| k@), map@) is Some,
        r is Some ==> r->Some_0@ == rendered(keys@.map_values(|k: String| k@), map@)->Some_0,
{
    let ghost ks = keys@.map_values(|k: String| k@);
    let mut out = String::new();
    let mut i: usize = 0;
    while i < keys.len()
        invariant
            ks == keys@.map_values(|k: String| k@),
            map.wf(),
            i <= keys@.len(),
            rendered(ks.subrange(0, i as int), map@) == Some(out@),
        decreases keys@.len() - i,
    {
        assert(ks.subrange(0, i + 1).drop_last() =~= ks.subrange(0, i as int));
        match format_by_key(&keys[i], map) {
            Some(line) => {
                out.append(line.as_str());
            },
            None => {
                proof {
                    lemma_rendered_fails(ks, map@, i + 1);
                }
                assert(ks.subrange(0, keys@.len() as int) =~= ks);
                return None;
            },
        }
        i = i + 1;
    }
    assert(ks.subrange(0, keys@.len() as int) =~= ks);
    Some(out)
}

/// Once a prefix of the keys fails to render, every longer prefix fails too.
proof fn lemma_rendered_fails(ks: Seq<Seq<char>>, p: Map<Seq<char>, serde_json::Value>, n: int)
    requires
        0 < n <= ks.len(),
        rendered(ks.subrange(0, n), p) is None,
    ensures
        rendered(ks, p) is None,
    decreases ks.len() - n,
{
    if n < ks.len() {
        assert(ks.subrange(0, n + 1).drop_last() =~= ks.subrange(0, n));
        lemma_rendered_fails(ks, p, n + 1);
    } else {
        assert(ks.subrange(0, n) =~= ks);
    }
}

/// The fields that the display shows, in order.
pub fn display_keys() -> (r: Vec<String>)
    ensures
        r@.len() == 6,
        r@[0]@ == seq!['@', 't', 'i', 'm', 'e', 's', 't', 'a', 'm', 'p'],
        r@[1]@ == seq!['a', 'g', 'e', 'n', 't', '.', 'i', 'd'],
        r@[2]@ == seq!['h', 'o', 's', 't', '.', 'n', 'a', 'm', 'e'],
        r@[3]@ == seq!['h', 'o', 's', 't', '.', 'o', 's', '.', 'n', 'a', 'm', 'e'],
        r@[4]@ == seq!['u', 's', 'e', 'r', '.', 'n', 'a', 'm', 'e'],
        r@[5]@ == seq!['h', 'o', 's', 't', '.', 'i', 'p'],
{
    proof {
        reveal_strlit("@timestamp");
        reveal_strlit("agent.id");
        reveal_strlit("host.name");
        reveal_strlit("host.os.name");
        reveal_strlit("user.name");
        reveal_strlit("host.ip");
    }
    let mut r: Vec<String> = Vec::new();
    r.push(String::from_str("@timestamp"));
    r.push(String::from_str("agent.id"));
    r.push(String::from_str("host.name"));
    r.push(String::from_str("host.os.name"));
    r.push(String::from_str("user.name"));
    r.push(String::from_str("host.ip"));
    assert(r@[0]@ =~= seq!['@', 't', 'i', 'm', 'e', 's', 't', 'a', 'm', 'p']);
    assert(r@[1]@ =~= seq!['a', 'g', 'e', 'n', 't', '.', 'i', 'd']);
    assert(r@[2]@ =~= seq!['h', 'o', 's', 't', '.', 'n', 'a', 'm', 'e']);
    assert(r@[3]@ =~= seq!['h', 'o', 's', 't', '.', 'o', 's', '.', 'n', 'a', 'm', 'e']);
    assert(r@[4]@ =~= seq!['u', 's', 'e', 'r', '.', 'n', 'a', 'm', 'e']);
    assert(r@[5]@ =~= seq!['h', 'o', 's', 't', '.', 'i', 'p']);
    r
}

} // verus!
