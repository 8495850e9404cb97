//! The configuration's textual form: a YAML document, held as a tree of the
//! library's own, the schema that reads a configuration out of such a tree,
//! and the encoding of a configuration back into one. The YAML text itself
//! is parsed and rendered by serde_yaml behind trusted wrappers; everything
//! the schema decides is verified here.

use crate::config::{
    dir_eqv, dirs_eqv, lemma_dirs_eqv_build, strings_eqv, ConfigError, Directory,
    FindprojectConfig,
};
use crate::paths::opt_str_view;
use vstd::prelude::*;

verus! {

/// A YAML document as the configuration schema sees it.
pub enum YamlNode {
    /// A null value.
    Null,
    /// A boolean scalar.
    Bool(bool),
    /// A string scalar.
    Str(String),
    /// A sequence of nodes.
    Sequence(Vec<YamlNode>),
    /// A mapping, as key and value pairs in document order.
    Mapping(Vec<(YamlNode, YamlNode)>),
    /// A scalar of a kind the schema has no use for (a number, a tag).
    Other,
}

/// The value under the first pair whose key is the string `key`, if any.
pub open spec fn map_lookup(pairs: Seq<(YamlNode, YamlNode)>, key: Seq<char>) -> Option<YamlNode>
    decreases pairs.len(),
{
    if pairs.len() == 0 {
        None
    } else if pairs[0].0 matches YamlNode::Str(s) && s@ == key {
        Some(pairs[0].1)
    } else {
        map_lookup(pairs.drop_first(), key)
    }
}

/// A found value is one of the pair values.
pub proof fn lemma_map_lookup_height(pairs: Seq<(YamlNode, YamlNode)>, key: Seq<char>)
    ensures
        map_lookup(pairs, key) matches Some(v) ==> exists|j: int|
            0 <= j < pairs.len() && v == (#[trigger] pairs[j]).1,
    decreases pairs.len(),
{
    if pairs.len() == 0 {
    } else if pairs[0].0 matches YamlNode::Str(s) && s@ == key {
        assert(map_lookup(pairs, key) == Some(pairs[0].1));
    } else {
        lemma_map_lookup_height(pairs.drop_first(), key);
        match map_lookup(pairs, key) {
            Some(v) => {
                let j = choose|j: int|
                    0 <= j < pairs.drop_first().len() && v == (#[trigger] pairs.drop_first()[j]).1;
                assert(pairs.drop_first()[j] == pairs[j + 1]);
                assert(v == pairs[j + 1].1);
            },
            None => {},
        }
    }
}

/// Whether the sequence nodes are the strings `out`, position by position.
pub open spec fn parses_strings(items: Seq<YamlNode>, out: Seq<String>) -> bool {
    &&& items.len() == out.len()
    &&& forall|j: int|
        0 <= j < items.len() ==> ((#[trigger] items[j]) matches YamlNode::Str(s) && s@ == out[j]@)
}

/// Whether `n` is a mapping that reads as the directory specification `d`:
/// `path` is required and must be a string; `only_self` defaults to false,
/// `exclude` and `sub_directories` to empty; a present field of the wrong
/// kind reads as nothing. Keys beyond these four are ignored.
pub open spec fn parses_dir(n: YamlNode, d: Directory) -> bool
    decreases n, 1int, 0int,
    via parses_dir_decreases
{
    &&& n matches YamlNode::Mapping(pairs)
    &&& (map_lookup(pairs@, "path"@) matches Some(p) && p matches YamlNode::Str(s) && s@
        == d.path@)
    &&& (match map_lookup(pairs@, "only_self"@) {
        None => d.only_self == false,
        Some(v) => v matches YamlNode::Bool(b) && b == d.only_self,
    })
    &&& (match map_lookup(pairs@, "exclude"@) {
        None => d.exclude@.len() == 0,
        Some(v) => v matches YamlNode::Sequence(items) && parses_strings(items@, d.exclude@),
    })
    &&& (match map_lookup(pairs@, "sub_directories"@) {
        None => d.sub_directories@.len() == 0,
        Some(v) => v matches YamlNode::Sequence(items) && parses_dir_seq(
            items@,
            d.sub_directories@,
        ),
    })
}

#[via_fn]
proof fn parses_dir_decreases(n: YamlNode, d: Directory) {
    match n {
        YamlNode::Mapping(pairs) => {
            lemma_map_lookup_height(pairs@, "sub_directories"@);
            assert(decreases_to!(n => pairs));
            assert(decreases_to!(pairs => pairs@));
            match map_lookup(pairs@, "sub_directories"@) {
                Some(v) => {
                    let j = choose|j: int|
                        0 <= j < pairs@.len() && v == (#[trigger] pairs@[j]).1;
                    assert(decreases_to!(pairs@ => pairs@[j]));
                    assert(decreases_to!(pairs@[j] => pairs@[j].1));
                    match v {
                        YamlNode::Sequence(items) => {
                            assert(decreases_to!(v => items));
                            assert(decreases_to!(items => items@));
                        },
                        _ => {},
                    }
                },
                None => {},
            }
        },
        _ => {},
    }
}

/// Whether the sequence nodes read as the directory specifications `subs`,
/// position by position.
pub open spec fn parses_dir_seq(items: Seq<YamlNode>, subs: Seq<Directory>) -> bool
    decreases items, 0int, items.len() + 1,
{
    items.len() == subs.len() && parses_dirs_from(items, subs, 0)
}

/// Whether the nodes from position `i` on read as the specifications at the
/// same positions.
pub open spec fn parses_dirs_from(items: Seq<YamlNode>, subs: Seq<Directory>, i: int) -> bool
    decreases items, 0int, items.len() - i,
{
    i < 0 || i >= items.len() || (parses_dir(items[i], subs[i]) && parses_dirs_from(
        items,
        subs,
        i + 1,
    ))
}

/// Whether `n` is a mapping whose required `directories` key holds a
/// sequence that reads as the configuration `c`. Other keys are ignored.
pub open spec fn parses_config(n: YamlNode, c: FindprojectConfig) -> bool {
    &&& n matches YamlNode::Mapping(pairs)
    &&& (map_lookup(pairs@, "directories"@) matches Some(v) && v matches YamlNode::Sequence(items)
        && parses_dir_seq(items@, c.directories@))
}

/// Position-by-position reading reaches every position of the tails.
pub proof fn lemma_parses_dirs_index(
    items: Seq<YamlNode>,
    subs: Seq<Directory>,
    i: int,
    j: int,
)
    requires
        parses_dirs_from(items, subs, i),
        0 <= i <= j < items.len(),
    ensures
        parses_dir(items[j], subs[j]),
    decreases j - i,
{
    if i < j {
        lemma_parses_dirs_index(items, subs, i + 1, j);
    }
}

/// Position-by-position reading at every position yields `parses_dirs_from`.
pub proof fn lemma_parses_dirs_build(items: Seq<YamlNode>, subs: Seq<Directory>, i: int)
    requires
        forall|j: int| i <= j < items.len() ==> parses_dir(#[trigger] items[j], subs[j]),
    ensures
        parses_dirs_from(items, subs, i),
    decreases items.len() - i,
{
    if i < items.len() {
        lemma_parses_dirs_build(items, subs, i + 1);
    }
}

/// The value under the first pair whose key is the string `key`, if any.
fn find_key<'a>(pairs: &'a Vec<(YamlNode, YamlNode)>, key: &str) -> (r: Option<&'a YamlNode>)
    ensures
        match r {
            Some(v) => map_lookup(pairs@, key@) == Some(*v),
            None => map_lookup(pairs@, key@) is None,
        },
{
    let key_string = String::from_str(key);
    let n = pairs.len();
    proof {
        assert(pairs@.subrange(0, n as int) =~= pairs@);
    }
    let mut i: usize = 0;
    while i < n
        invariant
            0 <= i <= n == pairs@.len(),
            key_string@ == key@,
            map_lookup(pairs@, key@) == map_lookup(pairs@.subrange(i as int, n as int), key@),
        decreases n - i,
    {
        proof {
            assert(pairs@.subrange(i as int, n as int).drop_first() =~= pairs@.subrange(
                i + 1 as int,
                n as int,
            ));
            assert(pairs@.subrange(i as int, n as int)[0] == pairs@[i as int]);
        }
        match &pairs[i].0 {
            YamlNode::Str(s) => {
                if *s == key_string {
                    return Some(&pairs[i].1);
                }
            },
            _ => {},
        }
        i = i + 1;
    }
    proof {
        assert(pairs@.subrange(n as int, n as int) =~= Seq::<(YamlNode, YamlNode)>::empty());
    }
    None
}

/// Reads a sequence of string nodes; anything but a string fails.
fn parse_string_items(items: &Vec<YamlNode>) -> (r: Result<Vec<String>, ConfigError>)
    ensures
        match r {
            Ok(v) => parses_strings(items@, v@),
            Err(e) => e == ConfigError::Schema && forall|out: Seq<String>|
                !parses_strings(items@, out),
        },
{
    let mut out: Vec<String> = Vec::new();
    let n = items.len();
    let mut i: usize = 0;
    while i < n
        invariant
            0 <= i <= n == items@.len(),
            out@.len() == i,
            forall|j: int|
                0 <= j < i ==> ((#[trigger] items@[j]) matches YamlNode::Str(s) && s@
                    == out@[j]@),
        decreases n - i,
    {
        match &items[i] {
            YamlNode::Str(s) => {
                out.push(s.clone());
            },
            _ => {
                proof {
                    assert forall|o: Seq<String>| !parses_strings(items@, o) by {
                        if parses_strings(items@, o) {
                            assert(items@[i as int] is Str);
                        }
                    }
                }
                return Err(ConfigError::Schema);
            },
        }
        i = i + 1;
    }
    Ok(out)
}

/// Reads a sequence of directory-specification nodes; the first bad node
/// fails the whole sequence.
fn parse_dir_items(items: &Vec<YamlNode>) -> (r: Result<Vec<Directory>, ConfigError>)
    ensures
        match r {
            Ok(v) => parses_dir_seq(items@, v@),
            Err(e) => e == ConfigError::Schema && forall|subs: Seq<Directory>|
                !parses_dir_seq(items@, subs),
        },
    decreases *items, 0int,
{
    let mut out: Vec<Directory> = Vec::new();
    let n = items.len();
    let mut i: usize = 0;
    while i < n
        invariant
            0 <= i <= n == items@.len(),
            out@.len() == i,
            forall|j: int| 0 <= j < i ==> parses_dir(#[trigger] items@[j], out@[j]),
        decreases n - i,
    {
        proof {
            assert(decreases_to!(*items => items@));
            assert(decreases_to!(items@ => items@[i as int]));
        }
        match parse_dir_node(&items[i]) {
            Ok(d) => {
                out.push(d);
            },
            Err(e) => {
                proof {
                    assert forall|subs: Seq<Directory>| !parses_dir_seq(items@, subs) by {
                        if parses_dir_seq(items@, subs) {
                            lemma_parses_dirs_index(items@, subs, 0, i as int);
                        }
                    }
                }
                return Err(e);
            },
        }
        i = i + 1;
    }
    proof {
        lemma_parses_dirs_build(items@, out@, 0);
    }
    Ok(out)
}

/// Reads one directory specification out of a mapping node: `path` is
/// required and must be a string; `only_self`, `exclude` and
/// `sub_directories` take their defaults when absent; a field of the wrong
/// kind, or anything that is not a mapping, fails.
fn parse_dir_node(n: &YamlNode) -> (r: Result<Directory, ConfigError>)
    ensures
        match r {
            Ok(d) => parses_dir(*n, d),
            Err(e) => e == ConfigError::Schema && forall|d: Directory|
                !(#[trigger] parses_dir(*n, d)),
        },
    decreases *n, 1int,
{
    match n {
        YamlNode::Mapping(pairs) => {
            let path = match find_key(pairs, "path") {
                Some(v) => match v {
                    YamlNode::Str(s) => s.clone(),
                    _ => {
                        return Err(ConfigError::Schema);
                    },
                },
                None => {
                    return Err(ConfigError::Schema);
                },
            };
            let only_self = match find_key(pairs, "only_self") {
                Some(v) => match v {
                    YamlNode::Bool(b) => *b,
                    _ => {
                        return Err(ConfigError::Schema);
                    },
                },
                None => false,
            };
            let exclude = match find_key(pairs, "exclude") {
                Some(v) => match v {
                    YamlNode::Sequence(items) => match parse_string_items(items) {
                        Ok(v) => v,
                        Err(e) => {
                            proof {
                                assert forall|d: Directory| !(#[trigger] parses_dir(*n, d)) by {
                                    if parses_dir(*n, d) {
                                        assert(parses_strings(items@, d.exclude@));
                                    }
                                }
                            }
                            return Err(e);
                        },
                    },
                    _ => {
                        return Err(ConfigError::Schema);
                    },
                },
                None => Vec::new(),
            };
            let sub_directories = match find_key(pairs, "sub_directories") {
                Some(v) => match v {
                    YamlNode::Sequence(items) => {
                        proof {
                            lemma_map_lookup_height(pairs@, "sub_directories"@);
                            let j = choose|j: int|
                                0 <= j < pairs@.len() && *v == (#[trigger] pairs@[j]).1;
                            assert(decreases_to!(*n => *pairs));
                            assert(decreases_to!(*pairs => pairs@));
                            assert(decreases_to!(pairs@ => pairs@[j]));
                            assert(decreases_to!(pairs@[j] => pairs@[j].1));
                            assert(decreases_to!(*v => *items));
                            assert(decreases_to!(*items => items@));
                        }
                        match parse_dir_items(items) {
                            Ok(v) => v,
                            Err(e) => {
                                proof {
                                    assert forall|d: Directory| !(#[trigger] parses_dir(
                                        *n,
                                        d,
                                    )) by {
                                        if parses_dir(*n, d) {
                                            assert(parses_dir_seq(items@, d.sub_directories@));
                                        }
                                    }
                                }
                                return Err(e);
                            },
                        }
                    },
                    _ => {
                        return Err(ConfigError::Schema);
                    },
                },
                None => Vec::new(),
            };
            Ok(Directory { path, only_self, exclude, sub_directories })
        },
        _ => Err(ConfigError::Schema),
    }
}

/// Reads a whole configuration out of a mapping node whose required
/// `directories` key holds a sequence of directory specifications.
pub fn config_from_node(n: &YamlNode) -> (r: Result<FindprojectConfig, ConfigError>)
    ensures
        match r {
            Ok(c) => parses_config(*n, c),
            Err(e) => e == ConfigError::Schema && forall|c: FindprojectConfig|
                !(#[trigger] parses_config(*n, c)),
        },
{
    match n {
        YamlNode::Mapping(pairs) => {
            match find_key(pairs, "directories") {
                Some(v) => match v {
                    YamlNode::Sequence(items) => match parse_dir_items(items) {
                        Ok(ds) => Ok(FindprojectConfig { directories: ds }),
                        Err(e) => {
                            proof {
                                assert forall|c: FindprojectConfig| !(#[trigger] parses_config(
                                    *n,
                                    c,
                                )) by {
                                    if parses_config(*n, c) {
                                        assert(parses_dir_seq(items@, c.directories@));
                                    }
                                }
                            }
                            Err(e)
                        },
                    },
                    _ => Err(ConfigError::Schema),
                },
                None => Err(ConfigError::Schema),
            }
        },
        _ => Err(ConfigError::Schema),
    }
}

/// Encodes the directory specifications from a vector, one node each.
fn dirs_to_nodes(subs: &Vec<Directory>) -> (r: Vec<YamlNode>)
    ensures
        r@.len() == subs@.len(),
        parses_dirs_from(r@, subs@, 0),
    decreases *subs, 0int,
{
    let mut out: Vec<YamlNode> = Vec::new();
    let n = subs.len();
    let mut i: usize = 0;
    while i < n
        invariant
            0 <= i <= n == subs@.len(),
            out@.len() == i,
            forall|j: int| 0 <= j < i ==> parses_dir(#[trigger] out@[j], subs@[j]),
        decreases n - i,
    {
        proof {
            assert(decreases_to!(*subs => subs@));
            assert(decreases_to!(subs@ => subs@[i as int]));
        }
        let node = dir_to_node(&subs[i]);
        out.push(node);
        i = i + 1;
    }
    proof {
        assert forall|j: int| 0 <= j < out@.len() implies parses_dir(
            #[trigger] out@[j],
            subs@[j],
        ) by {}
        lemma_parses_dirs_build(out@, subs@, 0);
    }
    out
}

/// Encodes one directory specification as a mapping node holding all four
/// fields, so that reading the node back yields the specification again.
fn dir_to_node(directory: &Directory) -> (r: YamlNode)
    ensures
        parses_dir(r, *directory),
    decreases *directory, 1int,
{
    let mut pairs: Vec<(YamlNode, YamlNode)> = Vec::new();
    pairs.push(
        (YamlNode::Str(String::from_str("path")), YamlNode::Str(directory.path.clone())),
    );
    pairs.push(
        (YamlNode::Str(String::from_str("only_self")), YamlNode::Bool(directory.only_self)),
    );
    let mut excl_items: Vec<YamlNode> = Vec::new();
    let n_excl = directory.exclude.len();
    let mut i: usize = 0;
    while i < n_excl
        invariant
            0 <= i <= n_excl == directory.exclude@.len(),
            excl_items@.len() == i,
            forall|j: int|
                0 <= j < i ==> ((#[trigger] excl_items@[j]) matches YamlNode::Str(s) && s@
                    == directory.exclude@[j]@),
        decreases n_excl - i,
    {
        excl_items.push(YamlNode::Str(directory.exclude[i].clone()));
        i = i + 1;
    }
    pairs.push((YamlNode::Str(String::from_str("exclude")), YamlNode::Sequence(excl_items)));
    proof {
        assert(decreases_to!(*directory => directory.sub_directories));
    }
    let subs_nodes = dirs_to_nodes(&directory.sub_directories);
    pairs.push(
        (YamlNode::Str(String::from_str("sub_directories")), YamlNode::Sequence(subs_nodes)),
    );
    let r = YamlNode::Mapping(pairs);
    proof {
        reveal_strlit("path");
        reveal_strlit("only_self");
        reveal_strlit("exclude");
        reveal_strlit("sub_directories");
        reveal_with_fuel(map_lookup, 6);
        let pv = pairs@;
        assert(pv.len() == 4);
        assert("path"@.len() == 4 && "only_self"@.len() == 9 && "exclude"@.len() == 7
            && "sub_directories"@.len() == 15);
        assert(pv[0].0 matches YamlNode::Str(s) && s@ == "path"@);
        assert(pv[1].0 matches YamlNode::Str(s) && s@ == "only_self"@);
        assert(pv[2].0 matches YamlNode::Str(s) && s@ == "exclude"@);
        assert(pv[3].0 matches YamlNode::Str(s) && s@ == "sub_directories"@);
        assert(pv.drop_first()[0] == pv[1] && pv.drop_first().drop_first()[0] == pv[2]
            && pv.drop_first().drop_first().drop_first()[0] == pv[3]);
        assert(map_lookup(pv, "path"@) == Some(pv[0].1));
        assert(map_lookup(pv, "only_self"@) == Some(pv[1].1));
        assert(map_lookup(pv, "exclude"@) == Some(pv[2].1));
        assert(map_lookup(pv, "sub_directories"@) == Some(pv[3].1));
    }
    r
}

/// Encodes a configuration as a mapping node with its `directories` key, so
/// that reading the node back yields the configuration again.
pub fn config_to_node(config: &FindprojectConfig) -> (r: YamlNode)
    ensures
        parses_config(r, *config),
{
    let dir_nodes = dirs_to_nodes(&config.directories);
    let mut pairs: Vec<(YamlNode, YamlNode)> = Vec::new();
    pairs.push(
        (YamlNode::Str(String::from_str("directories")), YamlNode::Sequence(dir_nodes)),
    );
    let r = YamlNode::Mapping(pairs);
    proof {
        reveal_strlit("directories");
        let pv = pairs@;
        assert(pv.len() == 1);
        assert(pv[0].0 is Str);
        assert(pv[0].0 matches YamlNode::Str(s) ==> s@ == "directories"@);
        assert(map_lookup(pv, "directories"@) == Some(pv[0].1));
    }
    r
}

/// One node reads as at most one directory specification, field for field:
/// whatever was encoded is exactly what reading gives back.
pub proof fn lemma_parses_dir_unique(n: YamlNode, d1: Directory, d2: Directory)
    requires
        parses_dir(n, d1),
        parses_dir(n, d2),
    ensures
        dir_eqv(d1, d2),
    decreases n,
{
    match n {
        YamlNode::Mapping(pairs) => {
            match map_lookup(pairs@, "exclude"@) {
                None => {
                    assert(strings_eqv(d1.exclude@, d2.exclude@));
                },
                Some(v) => {
                    match v {
                        YamlNode::Sequence(items) => {
                            assert forall|j: int|
                                0 <= j < d1.exclude@.len() implies (#[trigger] d1.exclude@[j])@
                                == d2.exclude@[j]@ by {
                                assert(items@[j] is Str);
                            }
                            assert(strings_eqv(d1.exclude@, d2.exclude@));
                        },
                        _ => {},
                    }
                },
            }
            match map_lookup(pairs@, "sub_directories"@) {
                None => {
                    assert(dirs_eqv(d1.sub_directories@, d2.sub_directories@));
                },
                Some(v) => {
                    match v {
                        YamlNode::Sequence(items) => {
                            lemma_map_lookup_height(pairs@, "sub_directories"@);
                            let j = choose|j: int|
                                0 <= j < pairs@.len() && v == (#[trigger] pairs@[j]).1;
                            assert(decreases_to!(n => pairs));
                            assert(decreases_to!(pairs => pairs@));
                            assert(decreases_to!(pairs@ => pairs@[j]));
                            assert(decreases_to!(pairs@[j] => pairs@[j].1));
                            assert(decreases_to!(v => items));
                            assert(decreases_to!(items => items@));
                            assert forall|k: int|
                                0 <= k < d1.sub_directories@.len() implies dir_eqv(
                                #[trigger] d1.sub_directories@[k],
                                d2.sub_directories@[k],
                            ) by {
                                lemma_parses_dirs_index(items@, d1.sub_directories@, 0, k);
                                lemma_parses_dirs_index(items@, d2.sub_directories@, 0, k);
                                assert(decreases_to!(items@ => items@[k]));
                                lemma_parses_dir_unique(
                                    items@[k],
                                    d1.sub_directories@[k],
                                    d2.sub_directories@[k],
                                );
                            }
                            lemma_dirs_eqv_build(d1.sub_directories@, d2.sub_directories@, 0);
                        },
                        _ => {},
                    }
                },
            }
        },
        _ => {},
    }
}

/// Declares serde_yaml::Value, serde_yaml's generic YAML tree, so that the
/// wrappers below can pass one through; the library never looks inside it.
#[verifier::external_type_specification]
#[verifier::external_body]
pub struct ExYamlValue(serde_yaml::Value);

/// The tree that the YAML text parses into, or nothing when the text is not
/// well-formed YAML. What the parse returns takes pages to state, but it is
/// a function of the text alone, so it is given this name and nothing more.
pub uninterp spec fn yaml_doc_of(text: Seq<char>) -> Option<YamlNode>;

/// Relies on serde_yaml::from_str: the YAML text parsed into serde_yaml's
/// generic value tree, carried over variant for variant into the library's
/// own; nothing when the text is not well-formed YAML (or cannot stand in
/// the value tree, as with a duplicate mapping key). The parse depends on
/// the text alone, so the result is stated as `yaml_doc_of`.
#[verifier::external_body]
fn parse_yaml_text(text: &str) -> (r: Option<YamlNode>)
    ensures
        r == yaml_doc_of(text@),
{
    match serde_yaml::from_str::<serde_yaml::Value>(text) {
        Ok(v) => Some(value_to_node(v)),
        Err(_) => None,
    }
}

/// Relies only on the shape of serde_yaml::Value: each variant carried over
/// to the library's own tree, one arm each; scalars the schema has no use
/// for (numbers, tagged values) become `YamlNode::Other`.
#[verifier::external_body]
fn value_to_node(v: serde_yaml::Value) -> YamlNode {
    match v {
        serde_yaml::Value::Null => YamlNode::Null,
        serde_yaml::Value::Bool(b) => YamlNode::Bool(b),
        serde_yaml::Value::Number(_) => YamlNode::Other,
        serde_yaml::Value::String(s) => YamlNode::Str(s),
        serde_yaml::Value::Sequence(s) => YamlNode::Sequence(
            s.into_iter().map(value_to_node).collect(),
        ),
        serde_yaml::Value::Mapping(m) => YamlNode::Mapping(
            m.into_iter().map(|(k, v)| (value_to_node(k), value_to_node(v))).collect(),
        ),
        serde_yaml::Value::Tagged(_) => YamlNode::Other,
    }
}

/// Relies only on the shape of serde_yaml::Value: the library's tree turned
/// back into serde_yaml's, one arm each; `Other` stands in as a null.
#[verifier::external_body]
fn node_to_value(n: &YamlNode) -> serde_yaml::Value {
    match n {
        YamlNode::Null => serde_yaml::Value::Null,
        YamlNode::Bool(b) => serde_yaml::Value::Bool(*b),
        YamlNode::Str(s) => serde_yaml::Value::String(s.clone()),
        YamlNode::Sequence(items) => serde_yaml::Value::Sequence(
            items.iter().map(node_to_value).collect(),
        ),
        YamlNode::Mapping(pairs) => serde_yaml::Value::Mapping(
            pairs.iter().map(|p| (node_to_value(&p.0), node_to_value(&p.1))).collect(),
        ),
        YamlNode::Other => serde_yaml::Value::Null,
    }
}

/// The YAML text that the tree renders as, or nothing when serde_yaml
/// cannot render it. The rendering depends on the tree alone, so it is
/// given this name and nothing more.
pub uninterp spec fn yaml_text_of(n: YamlNode) -> Option<Seq<char>>;

/// Relies on serde_yaml::to_string: the library's tree, carried over
/// variant for variant into serde_yaml's, rendered as YAML text; nothing
/// when serde_yaml cannot render it. The rendering depends on the tree
/// alone, so the result is stated as `yaml_text_of`.
#[verifier::external_body]
fn render_yaml_node(n: &YamlNode) -> (r: Option<String>)
    ensures
        opt_str_view(r) == yaml_text_of(*n),
{
    serde_yaml::to_string(&node_to_value(n)).ok()
}

/// Loads a configuration from YAML text: text that is not well-formed YAML
/// fails with `Syntax`; well-formed text whose tree does not match the
/// schema fails with `Schema`; otherwise exactly the configuration that the
/// text's tree reads as is handed back.
pub fn parse_config(text: &str) -> (r: Result<FindprojectConfig, ConfigError>)
    ensures
        yaml_doc_of(text@) is None ==> r == Err::<FindprojectConfig, ConfigError>(
            ConfigError::Syntax,
        ),
        yaml_doc_of(text@) matches Some(n) ==> (match r {
            Ok(c) => parses_config(n, c),
            Err(e) => e == ConfigError::Schema && forall|c: FindprojectConfig|
                !(#[trigger] parses_config(n, c)),
        }),
{
    match parse_yaml_text(text) {
        None => Err(ConfigError::Syntax),
        Some(node) => config_from_node(&node),
    }
}

/// Renders a configuration as YAML text by encoding it as a tree — one that
/// reads back as the configuration, field for field — and handing that tree
/// to serde_yaml; nothing when serde_yaml cannot render the tree.
pub fn config_to_yaml(config: &FindprojectConfig) -> (r: Option<String>)
    ensures
        r matches Some(text) ==> exists|n: YamlNode|
            parses_config(n, *config) && (#[trigger] yaml_text_of(n)) == Some(text@),
        r is None ==> exists|n: YamlNode|
            parses_config(n, *config) && (#[trigger] yaml_text_of(n)) is None,
{
    let node = config_to_node(config);
    let r = render_yaml_node(&node);
    proof {
        assert(parses_config(node, *config));
        match &r {
            Some(s) => {
                assert(yaml_text_of(node) == Some(s@));
            },
            None => {
                assert(yaml_text_of(node) is None);
            },
        }
    }
    r
}

/// One node reads as at most one configuration, field for field.
pub proof fn lemma_parses_config_unique(n: YamlNode, c1: FindprojectConfig, c2: FindprojectConfig)
    requires
        parses_config(n, c1),
        parses_config(n, c2),
    ensures
        crate::config::config_eqv(c1, c2),
{
    match n {
        YamlNode::Mapping(pairs) => {
            match map_lookup(pairs@, "directories"@) {
                Some(v) => {
                    match v {
                        YamlNode::Sequence(items) => {
                            assert forall|k: int|
                                0 <= k < c1.directories@.len() implies dir_eqv(
                                #[trigger] c1.directories@[k],
                                c2.directories@[k],
                            ) by {
                                lemma_parses_dirs_index(items@, c1.directories@, 0, k);
                                lemma_parses_dirs_index(items@, c2.directories@, 0, k);
                                lemma_parses_dir_unique(
                                    items@[k],
                                    c1.directories@[k],
                                    c2.directories@[k],
                                );
                            }
                            lemma_dirs_eqv_build(c1.directories@, c2.directories@, 0);
                        },
                        _ => {},
                    }
                },
                None => {},
            }
        },
        _ => {},
    }
}

} // verus!
