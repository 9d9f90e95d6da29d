//! The configuration values the WebUI shows, read from the raw TOML text of
//! the configuration file with the `toml` crate.
use vstd::prelude::*;

use crate::numfmt::{push_i64, signed_decimal};
use crate::text::{push_char, push_str};
use crate::webui::json::{json_string, push_json_str};

verus! {

/// `toml::map::Map` (toml crate), carried opaquely; see `toml_table_contents`.
#[verifier::external_type_specification]
#[verifier::external_body]
#[verifier::reject_recursive_types(K)]
#[verifier::reject_recursive_types(V)]
pub struct ExTomlMap<K, V>(toml::map::Map<K, V>);

/// `toml::Value` (toml crate), carried opaquely.
#[verifier::external_type_specification]
#[verifier::external_body]
pub struct ExTomlValue(toml::Value);

/// A TOML value as the WebUI reports it: strings, booleans and integers,
/// and every other kind of value as `Other`.
pub enum TomlScalar {
    Str(String),
    Bool(bool),
    Int(i64),
    Other,
}

/// A `TomlScalar`, as a value.
pub enum ScalarView {
    Str(Seq<char>),
    Bool(bool),
    Int(int),
    Other,
}

impl View for TomlScalar {
    type V = ScalarView;

    open spec fn view(&self) -> ScalarView {
        match self {
            TomlScalar::Str(s) => ScalarView::Str(s@),
            TomlScalar::Bool(b) => ScalarView::Bool(*b),
            TomlScalar::Int(i) => ScalarView::Int(*i as int),
            TomlScalar::Other => ScalarView::Other,
        }
    }
}

/// Name for what a `toml::Table` holds: its keys, each with its value seen
/// as a `ScalarView`.
pub uninterp spec fn toml_table_contents(t: toml::map::Map<String, toml::Value>) -> Map<Seq<char>, ScalarView>;

/// Name for what parsing a document as a `toml::Table` gives: the table's
/// contents, or `None` where the parser reports an error.
pub uninterp spec fn toml_parse(content: Seq<char>) -> Option<Map<Seq<char>, ScalarView>>;

/// `<toml::Table as FromStr>::from_str` (toml crate): the parsed table, the
/// error turned into `None`.  Which documents it accepts is left to the
/// name `toml_parse`.
#[verifier::external_body]
pub(crate) fn parse_toml_table(content: &str) -> (r: Option<toml::map::Map<String, toml::Value>>)
    ensures
        match r {
            Some(t) => toml_parse(content@) == Some(toml_table_contents(t)),
            None => toml_parse(content@) is None,
        },
{
    content.parse::<toml::Table>().ok()
}

/// `toml::map::Map::get` (toml crate): the value stored under `key`, seen
/// as a `TomlScalar`; `None` when the key is absent.
#[verifier::external_body]
fn table_get(t: &toml::map::Map<String, toml::Value>, key: &str) -> (r: Option<TomlScalar>)
    ensures
        match r {
            Some(v) => toml_table_contents(*t).contains_key(key@) && toml_table_contents(*t)[key@]
                == v@,
            None => !toml_table_contents(*t).contains_key(key@),
        },
{
    match t.get(key) {
        Some(toml::Value::String(s)) => Some(TomlScalar::Str(s.clone())),
        Some(toml::Value::Boolean(b)) => Some(TomlScalar::Bool(*b)),
        Some(toml::Value::Integer(i)) => Some(TomlScalar::Int(*i)),
        Some(_) => Some(TomlScalar::Other),
        None => None,
    }
}

/// The configuration keys the WebUI knows, in the order it reports them.
pub open spec fn known_keys() -> Seq<Seq<char>> {
    seq![
        "rules"@,
        "standalone"@,
        "multi_thread"@,
        "dns_server"@,
        "dns_port"@,
        "dns_upstream"@,
        "battery_saver"@,
        "webui_socket"@,
    ]
}

fn known_key(i: usize) -> (k: &'static str)
    requires
        i < 8,
    ensures
        k@ == known_keys()[i as int],
{
    match i {
        0 => "rules",
        1 => "standalone",
        2 => "multi_thread",
        3 => "dns_server",
        4 => "dns_port",
        5 => "dns_upstream",
        6 => "battery_saver",
        _ => "webui_socket",
    }
}

/// How a value is written as JSON; `None` for values that are not shown.
pub open spec fn scalar_json(v: ScalarView) -> Option<Seq<char>> {
    match v {
        ScalarView::Str(s) => Some(json_string(s)),
        ScalarView::Bool(b) => Some(
            if b {
                "true"@
            } else {
                "false"@
            },
        ),
        ScalarView::Int(i) => Some(signed_decimal(i)),
        ScalarView::Other => None,
    }
}

/// The (key, value) pairs of `m` for those of `keys` it holds, in the order
/// of `keys`.
pub open spec fn present_values(m: Map<Seq<char>, ScalarView>, keys: Seq<Seq<char>>) -> Seq<
    (Seq<char>, ScalarView),
>
    decreases keys.len(),
{
    if keys.len() == 0 {
        Seq::empty()
    } else {
        let rest = present_values(m, keys.drop_last());
        let k = keys.last();
        if m.contains_key(k) {
            rest.push((k, m[k]))
        } else {
            rest
        }
    }
}

/// The `"key":value` members of the pairs whose value is shown, in order.
pub open spec fn shown_members(es: Seq<(Seq<char>, ScalarView)>) -> Seq<Seq<char>>
    decreases es.len(),
{
    if es.len() == 0 {
        Seq::empty()
    } else {
        let rest = shown_members(es.drop_last());
        let e = es.last();
        match scalar_json(e.1) {
            Some(j) => rest.push(seq!['"'] + e.0 + seq!['"', ':'] + j),
            None => rest,
        }
    }
}

/// The JSON object of the shown values among the pairs.
pub open spec fn values_text(es: Seq<(Seq<char>, ScalarView)>) -> Seq<char> {
    seq!['{'] + join_commas(shown_members(es)) + seq!['}']
}

/// The pairs as values.
pub open spec fn entry_views(es: Seq<(String, TomlScalar)>) -> Seq<(Seq<char>, ScalarView)> {
    es.map_values(|e: (String, TomlScalar)| (e.0@, e.1@))
}

/// The members joined with commas.
pub open spec fn join_commas(ps: Seq<Seq<char>>) -> Seq<char>
    decreases ps.len(),
{
    if ps.len() == 0 {
        Seq::empty()
    } else if ps.len() == 1 {
        ps[0]
    } else {
        join_commas(ps.drop_last()) + seq![','] + ps.last()
    }
}

/// The JSON object of the known keys' values in a TOML document; `{}` when
/// it does not parse.
pub open spec fn config_values_text(content: Seq<char>) -> Seq<char> {
    match toml_parse(content) {
        None => seq!['{', '}'],
        Some(m) => values_text(present_values(m, known_keys())),
    }
}

/// Appends the JSON of a shown value; `false` (and nothing appended) for
/// one that is not shown.
fn push_scalar(out: &mut String, v: &TomlScalar) -> (shown: bool)
    ensures
        shown == (scalar_json(v@) is Some),
        shown ==> final(out)@ == old(out)@ + scalar_json(v@).unwrap(),
        !shown ==> final(out)@ == old(out)@,
{
    match v {
        TomlScalar::Str(s) => {
            push_json_str(out, s.as_str());
            true
        },
        TomlScalar::Bool(b) => {
            if *b {
                push_str(out, "true");
            } else {
                push_str(out, "false");
            }
            true
        },
        TomlScalar::Int(i) => {
            push_i64(out, *i);
            true
        },
        TomlScalar::Other => false,
    }
}

fn is_shown(v: &TomlScalar) -> (b: bool)
    ensures
        b == (scalar_json(v@) is Some),
{
    match v {
        TomlScalar::Other => false,
        _ => true,
    }
}

/// The JSON object of the shown values among (key, value) pairs: strings as
/// JSON strings, booleans and integers as they are, other values left out,
/// in the order given.
pub fn values_json(entries: &Vec<(String, TomlScalar)>) -> (r: String)
    ensures
        r@ == values_text(entry_views(entries@)),
{
    let ghost es = entry_views(entries@);
    let mut out = String::new();
    push_char(&mut out, '{');
    let mut i: usize = 0;
    let mut first = true;
    while i < entries.len()
        invariant
            i <= entries@.len(),
            es == entry_views(entries@),
            first == (shown_members(es.take(i as int)).len() == 0),
            out@ == seq!['{'] + join_commas(shown_members(es.take(i as int))),
        decreases entries@.len() - i,
    {
        let ghost prev = shown_members(es.take(i as int));
        proof {
            assert(es.take(i + 1).drop_last() =~= es.take(i as int));
            assert(es.take(i + 1).last() == es[i as int]);
            assert(es[i as int] == (entries@[i as int].0@, entries@[i as int].1@));
        }
        let key = &entries[i].0;
        let v = &entries[i].1;
        if is_shown(v) {
            if !first {
                push_char(&mut out, ',');
            }
            first = false;
            push_char(&mut out, '"');
            push_str(&mut out, key.as_str());
            push_char(&mut out, '"');
            push_char(&mut out, ':');
            let shown = push_scalar(&mut out, v);
            proof {
                let p = seq!['"'] + key@ + seq!['"', ':'] + scalar_json(v@).unwrap();
                let next = prev.push(p);
                assert(shown_members(es.take(i + 1)) == next);
                assert(next.drop_last() =~= prev);
                if prev.len() == 0 {
                    assert(join_commas(next) == p);
                } else {
                    assert(join_commas(next) == join_commas(prev) + seq![','] + p);
                }
                assert(out@ =~= seq!['{'] + join_commas(next));
            }
        }
        i += 1;
    }
    push_char(&mut out, '}');
    proof {
        assert(es.take(entries@.len() as int) =~= es);
        assert(out@ =~= values_text(es));
    }
    out
}

/// Build a JSON object of the config keys the WebUI knows about, parsed
/// from the raw TOML content.  Unknown keys and comments are left to the
/// raw content.
pub fn config_values_json(content: &str) -> (r: String)
    ensures
        r@ == config_values_text(content@),
{
    let table = match parse_toml_table(content) {
        Some(t) => t,
        None => {
            let s = String::from_str("{}");
            proof {
                reveal_strlit("{}");
                assert(s@ =~= seq!['{', '}']);
            }
            return s;
        },
    };
    let ghost m = toml_table_contents(table);
    let mut entries: Vec<(String, TomlScalar)> = Vec::new();
    let mut i: usize = 0;
    proof {
        assert(entry_views(entries@) =~= present_values(m, known_keys().take(0)));
    }
    while i < 8
        invariant
            i <= 8,
            m == toml_table_contents(table),
            entry_views(entries@) == present_values(m, known_keys().take(i as int)),
        decreases 8 - i,
    {
        let key = known_key(i);
        proof {
            assert(known_keys().take(i + 1).drop_last() =~= known_keys().take(i as int));
            assert(known_keys().take(i + 1).last() == known_keys()[i as int]);
        }
        match table_get(&table, key) {
            Some(v) => {
                let ghost before = entries@;
                let k = String::from_str(key);
                entries.push((k, v));
                proof {
                    assert(entry_views(entries@) =~= entry_views(before).push((key@, v@)));
                }
            },
            None => {},
        }
        i += 1;
    }
    proof {
        assert(known_keys().take(8) =~= known_keys());
    }
    values_json(&entries)
}

} // verus!
