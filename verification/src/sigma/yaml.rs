//! YAML documents as plain trees.
use crate::text::same;
use saphyr::{LoadableYamlNode, ScalarOwned, YamlOwned};
use vstd::prelude::*;

verus! {

/// A YAML node.
#[derive(Debug)]
pub enum Yaml {
    Null,
    Boolean(bool),
    Integer(i64),
    /// A floating-point scalar, as the text it prints as.
    Real(String),
    Text(String),
    Sequence(Vec<Yaml>),
    /// Key and value pairs in document order.
    Mapping(Vec<(Yaml, Yaml)>),
    /// A node no rule reads: an alias, a tagged node, an unresolved scalar.
    Other,
}

/// A YAML node, as mathematics.
pub enum Node {
    Null,
    Boolean(bool),
    Integer(int),
    Real(Seq<char>),
    Text(Seq<char>),
    Sequence(Seq<Node>),
    Mapping(Seq<(Node, Node)>),
    Other,
}

impl Yaml {
    /// The node this value stands for.
    pub open spec fn node(&self) -> Node
        decreases self,
    {
        match self {
            Yaml::Null => Node::Null,
            Yaml::Boolean(b) => Node::Boolean(*b),
            Yaml::Integer(i) => Node::Integer(*i as int),
            Yaml::Real(s) => Node::Real(s@),
            Yaml::Text(s) => Node::Text(s@),
            Yaml::Sequence(items) => Node::Sequence(
                Seq::new(
                    items@.len(),
                    |i: int|
                        if 0 <= i < items@.len() {
                            items@[i].node()
                        } else {
                            Node::Other
                        },
                ),
            ),
            Yaml::Mapping(pairs) => Node::Mapping(
                Seq::new(
                    pairs@.len(),
                    |i: int|
                        if 0 <= i < pairs@.len() {
                            (pairs@[i].0.node(), pairs@[i].1.node())
                        } else {
                            (Node::Other, Node::Other)
                        },
                ),
            ),
            Yaml::Other => Node::Other,
        }
    }
}

/// The nodes a list of values stands for.
pub open spec fn nodes(values: Seq<Yaml>) -> Seq<Node> {
    values.map_values(|y: Yaml| y.node())
}

/// The first value in a mapping stored under a text key.
pub open spec fn pair_value(pairs: Seq<(Node, Node)>, key: Seq<char>) -> Option<Node>
    decreases pairs.len(),
{
    if pairs.len() == 0 {
        None
    } else if pairs[0].0 == Node::Text(key) {
        Some(pairs[0].1)
    } else {
        pair_value(pairs.drop_first(), key)
    }
}

/// The value a mapping stores under a text key; `None` for any other node.
pub open spec fn member(node: Node, key: Seq<char>) -> Option<Node> {
    match node {
        Node::Mapping(pairs) => pair_value(pairs, key),
        _ => None,
    }
}

/// The text a mapping stores under a text key.
pub open spec fn text_member(node: Node, key: Seq<char>) -> Option<Seq<char>> {
    match member(node, key) {
        Some(Node::Text(s)) => Some(s),
        _ => None,
    }
}

impl Yaml {
    /// The value a mapping stores under a text key.
    pub fn get(&self, key: &str) -> (value: Option<&Yaml>)
        ensures
            match value {
                Some(y) => member(self.node(), key@) == Some(y.node()),
                None => member(self.node(), key@) is None,
            },
    {
        match self {
            Yaml::Mapping(pairs) => {
                let ghost all = self.node()->Mapping_0;
                let mut i: usize = 0;
                assert(all.skip(0) == all);
                while i < pairs.len()
                    invariant
                        i <= pairs@.len(),
                        self.node() == Node::Mapping(all),
                        all.len() == pairs@.len(),
                        forall|k: int|
                            0 <= k < all.len() ==> #[trigger] all[k] == (
                                pairs@[k].0.node(),
                                pairs@[k].1.node(),
                            ),
                        pair_value(all, key@) == pair_value(all.skip(i as int), key@),
                    decreases pairs@.len() - i,
                {
                    let ghost rest = all.skip(i as int);
                    assert(rest[0] == all[i as int]);
                    assert(rest.drop_first() == all.skip(i + 1));
                    match &pairs[i].0 {
                        Yaml::Text(s) => {
                            if same(s.as_str(), key) {
                                return Some(&pairs[i].1);
                            }
                        },
                        _ => {},
                    }
                    i += 1;
                }
                None
            },
            _ => None,
        }
    }

    /// The text a mapping stores under a text key.
    pub fn get_text(&self, key: &str) -> (value: Option<&String>)
        ensures
            match value {
                Some(s) => text_member(self.node(), key@) == Some(s@),
                None => text_member(self.node(), key@) is None,
            },
    {
        match self.get(key) {
            Some(Yaml::Text(s)) => Some(s),
            _ => None,
        }
    }
}

/// The documents a YAML source holds, or the parser's account of why it holds
/// none.
pub uninterp spec fn yaml_documents(source: Seq<char>) -> Result<Seq<Node>, Seq<char>>;

/// A node as `saphyr` parsed it.
#[verifier::external_type_specification]
#[verifier::external_body]
pub struct ExYamlOwned(YamlOwned);

/// Converts a parsed `saphyr::YamlOwned` node one variant at a time.
#[verifier::external_body]
fn convert(node: &YamlOwned) -> Yaml {
    match node {
        YamlOwned::Value(ScalarOwned::Null) => Yaml::Null,
        YamlOwned::Value(ScalarOwned::Boolean(b)) => Yaml::Boolean(*b),
        YamlOwned::Value(ScalarOwned::Integer(i)) => Yaml::Integer(*i),
        YamlOwned::Value(ScalarOwned::FloatingPoint(x)) => Yaml::Real(x.to_string()),
        YamlOwned::Value(ScalarOwned::String(s)) => Yaml::Text(s.clone()),
        YamlOwned::Sequence(items) => Yaml::Sequence(items.iter().map(convert).collect()),
        YamlOwned::Mapping(pairs) => {
            Yaml::Mapping(pairs.iter().map(|(k, v)| (convert(k), convert(v))).collect())
        },
        _ => Yaml::Other,
    }
}

/// `saphyr::YamlOwned::load_from_str` reads every document of a YAML source.
/// What it reads is a function of the source alone; the YAML grammar itself is
/// left unsaid.
#[verifier::external_body]
fn load(source: &str) -> (documents: Result<Vec<Yaml>, String>)
    ensures
        match documents {
            Ok(all) => yaml_documents(source@) == Ok::<Seq<Node>, Seq<char>>(nodes(all@)),
            Err(reason) => yaml_documents(source@) == Err::<Seq<Node>, Seq<char>>(reason@),
        },
{
    match YamlOwned::load_from_str(source) {
        Ok(all) => Ok(all.iter().map(convert).collect()),
        Err(reason) => Err(reason.to_string()),
    }
}

impl Yaml {
    /// Every document of a YAML source, or the parser's account of what is wrong
    /// with it.
    pub fn documents(source: &str) -> (documents: Result<Vec<Yaml>, String>)
        ensures
            match documents {
                Ok(all) => yaml_documents(source@) == Ok::<Seq<Node>, Seq<char>>(nodes(all@)),
                Err(reason) => yaml_documents(source@) == Err::<Seq<Node>, Seq<char>>(reason@),
            },
    {
        load(source)
    }
}

} // verus!
