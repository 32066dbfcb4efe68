//! TOML documents, read one place at a time.

use crate::data::Duplicate;
use vstd::prelude::*;
use vstd::string::*;

verus! {

/// One step down into a document: into a table by key, or into an array by
/// index.
#[derive(Debug, Clone, PartialEq, Eq)]
pub enum PathStep {
    Key(String),
    Index(usize),
}

/// A step as mathematical values.
pub enum PathStepView {
    Key(Seq<char>),
    Index(int),
}

impl DeepView for PathStep {
    type V = PathStepView;

    open spec fn deep_view(&self) -> PathStepView {
        match self {
            PathStep::Key(key) => PathStepView::Key(key@),
            PathStep::Index(i) => PathStepView::Index(*i as int),
        }
    }
}

impl Duplicate for PathStep {
    fn duplicate(&self) -> (r: Self) {
        match self {
            PathStep::Key(key) => PathStep::Key(key.clone()),
            PathStep::Index(i) => PathStep::Index(*i),
        }
    }
}

/// What stands at one place of a document.
#[derive(Debug, PartialEq, Eq)]
pub enum Node {
    /// Nothing.
    Absent,
    /// A string.
    Text(String),
    /// An array; each element is given where it is a string.
    Array(Vec<Option<String>>),
    /// A table or inline table, given by its keys in order.
    Table(Vec<String>),
    /// Any other value.
    Other,
}

/// What stands at one place of a document, as mathematical values.
pub enum NodeView {
    Absent,
    Text(Seq<char>),
    Array(Seq<Option<Seq<char>>>),
    Table(Seq<Seq<char>>),
    Other,
}

impl DeepView for Node {
    type V = NodeView;

    open spec fn deep_view(&self) -> NodeView {
        match self {
            Node::Absent => NodeView::Absent,
            Node::Text(text) => NodeView::Text(text@),
            Node::Array(items) => NodeView::Array(items.deep_view()),
            Node::Table(keys) => NodeView::Table(keys.deep_view()),
            Node::Other => NodeView::Other,
        }
    }
}

/// What a value of a document is: a string, an array, whose elements are
/// given where they are strings, or a table, given by its keys in order. A
/// value of another kind is none of these.
struct Value {
    text: Option<String>,
    items: Option<Vec<Option<String>>>,
    keys: Option<Vec<String>>,
}

/// What a value of a document is, as mathematical values.
pub struct ValueView {
    pub text: Option<Seq<char>>,
    pub items: Option<Seq<Option<Seq<char>>>>,
    pub keys: Option<Seq<Seq<char>>>,
}

impl DeepView for Value {
    type V = ValueView;

    closed spec fn deep_view(&self) -> ValueView {
        ValueView {
            text: self.text.deep_view(),
            items: self.items.deep_view(),
            keys: self.keys.deep_view(),
        }
    }
}

/// Why a text is no TOML document, if it is none.
pub uninterp spec fn toml_error(text: Seq<char>) -> Option<Seq<char>>;

/// The value at a place of the document that a text spells, if there is one.
pub uninterp spec fn toml_value(text: Seq<char>, path: Seq<PathStepView>) -> Option<ValueView>;

/// What stands at a place of the document that a text spells.
pub open spec fn toml_at(text: Seq<char>, path: Seq<PathStepView>) -> NodeView {
    match toml_value(text, path) {
        None => NodeView::Absent,
        Some(value) => if value.text is Some {
            NodeView::Text(value.text->0)
        } else if value.items is Some {
            NodeView::Array(value.items->0)
        } else if value.keys is Some {
            NodeView::Table(value.keys->0)
        } else {
            NodeView::Other
        },
    }
}

/// `toml_edit::Document::parse`: the rendered error, if the text is no TOML
/// document.
#[verifier::external_body]
fn document_error(text: &str) -> (r: Option<String>)
    ensures
        r.deep_view() == toml_error(text@),
{
    toml_edit::Document::parse(text).err().map(|e| e.to_string())
}

/// `toml_edit::Item::get` along a path, in the document that a text spells:
/// the value at that place, if there is one.
#[verifier::external_body]
fn value_at(text: &str, path: &Vec<PathStep>) -> (r: Option<Value>)
    requires
        toml_error(text@) is None,
    ensures
        r.deep_view() == toml_value(text@, path.deep_view()),
{
    let doc = toml_edit::Document::parse(text).ok()?;
    path.iter().try_fold(doc.as_item(), |item, step| match step {
        PathStep::Key(key) => item.get(key.as_str()),
        PathStep::Index(i) => item.get(*i),
    }).map(|found| Value {
        text: found.as_str().map(str::to_owned),
        items: found.as_array().map(|a| a.iter().map(|v| v.as_str().map(str::to_owned)).collect()),
        keys: found.as_table_like().map(|t| t.iter().map(|(k, _)| k.to_owned()).collect()),
    })
}

/// What stands at a place of the document that a text spells.
fn toml_node(text: &str, path: &Vec<PathStep>) -> (r: Node)
    requires
        toml_error(text@) is None,
    ensures
        r.deep_view() == toml_at(text@, path.deep_view()),
{
    let value = match value_at(text, path) {
        Some(value) => value,
        None => return Node::Absent,
    };
    if let Some(text) = value.text {
        Node::Text(text)
    } else if let Some(items) = value.items {
        Node::Array(items)
    } else if let Some(keys) = value.keys {
        Node::Table(keys)
    } else {
        Node::Other
    }
}

/// A text that is a TOML document.
#[derive(Debug)]
pub struct Document {
    text: String,
}

impl Document {
    /// The text is a TOML document.
    #[verifier::type_invariant]
    pub closed spec fn wf(&self) -> bool {
        toml_error(self.text@) is None
    }

    /// The text of the document.
    pub closed spec fn source(&self) -> Seq<char> {
        self.text@
    }

    /// The document that a text spells, or why it spells none.
    pub fn parse(text: &str) -> (r: Result<Document, String>)
        ensures
            match r {
                Ok(doc) => toml_error(text@) is None && doc.source() == text@,
                Err(message) => toml_error(text@) == Some(message@),
            },
    {
        match document_error(text) {
            None => Ok(Document { text: text.to_owned() }),
            Some(message) => Err(message),
        }
    }

    /// What stands at a place of the document.
    pub fn node(&self, path: &Vec<PathStep>) -> (r: Node)
        ensures
            r.deep_view() == toml_at(self.source(), path.deep_view()),
    {
        proof {
            use_type_invariant(self);
        }
        toml_node(self.text.as_str(), path)
    }

    /// What stands under a key of the document.
    pub fn get(&self, key: &str) -> (r: Node)
        ensures
            r.deep_view() == toml_at(self.source(), keys1(key@)),
    {
        let mut path: Vec<PathStep> = Vec::new();
        path.push(PathStep::Key(key.to_owned()));
        assert(path.deep_view() =~= keys1(key@));
        self.node(&path)
    }

    /// What stands under a key of a table of the document.
    pub fn get2(&self, key: &str, inner: &str) -> (r: Node)
        ensures
            r.deep_view() == toml_at(self.source(), keys2(key@, inner@)),
    {
        let mut path: Vec<PathStep> = Vec::new();
        path.push(PathStep::Key(key.to_owned()));
        path.push(PathStep::Key(inner.to_owned()));
        assert(path.deep_view() =~= keys2(key@, inner@));
        self.node(&path)
    }

    /// What stands under a key of a table of a table of the document.
    pub fn get3(&self, key: &str, inner: &str, innermost: &str) -> (r: Node)
        ensures
            r.deep_view() == toml_at(self.source(), keys3(key@, inner@, innermost@)),
    {
        let mut path: Vec<PathStep> = Vec::new();
        path.push(PathStep::Key(key.to_owned()));
        path.push(PathStep::Key(inner.to_owned()));
        path.push(PathStep::Key(innermost.to_owned()));
        assert(path.deep_view() =~= keys3(key@, inner@, innermost@));
        self.node(&path)
    }
}

/// The place under one key.
pub open spec fn keys1(a: Seq<char>) -> Seq<PathStepView> {
    seq![PathStepView::Key(a)]
}

/// The place under a key of a table.
pub open spec fn keys2(a: Seq<char>, b: Seq<char>) -> Seq<PathStepView> {
    seq![PathStepView::Key(a), PathStepView::Key(b)]
}

/// The place under a key of a table of a table.
pub open spec fn keys3(a: Seq<char>, b: Seq<char>, c: Seq<char>) -> Seq<PathStepView> {
    seq![PathStepView::Key(a), PathStepView::Key(b), PathStepView::Key(c)]
}

/// What stands at a place is what its value is: a string, an array, a table,
/// or something else; nothing stands where there is no value.
pub proof fn values_are_told_apart(text: Seq<char>, path: Seq<PathStepView>)
    ensures
        ({
            let value = toml_value(text, path);
            let node = toml_at(text, path);
            &&& value is None <==> node is Absent
            &&& value is Some && value->0.text is Some ==> node == NodeView::Text(value->0.text->0)
            &&& value is Some && value->0.text is None && value->0.items is Some ==> node
                == NodeView::Array(value->0.items->0)
            &&& value is Some && value->0.text is None && value->0.items is None
                && value->0.keys is Some ==> node == NodeView::Table(value->0.keys->0)
            &&& value is Some && value->0.text is None && value->0.items is None
                && value->0.keys is None ==> node is Other
        }),
{
}

} // verus!
