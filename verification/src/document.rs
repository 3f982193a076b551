//! JSON and TOML documents as plain trees.
//!
//! The `serde_json` and `toml` crates parse the text; everything that is read
//! out of a document is read from the tree.

use vstd::prelude::*;
use vstd::string::*;
use vstd::utf8::encode_utf8;
use crate::text::text_equal;

verus! {

/// One value of a document, with the text that its format writes for it.
#[derive(Debug)]
pub struct Document {
    /// The value written out in its format.
    pub rendered: String,
    /// What the value is.
    pub shape: Shape,
}

/// What a value of a document is.
#[derive(Debug)]
pub enum Shape {
    /// The absence of a value.
    Null,
    /// A truth value.
    Flag(bool),
    /// A text.
    Text(String),
    /// A list of values.
    List(Vec<Document>),
    /// Named values.
    Record(Vec<Member>),
    /// A number of JSON, with its value when it is a whole one of sixty-four bits without a sign.
    Number(Option<u64>),
    /// A number or a date of TOML.
    Other,
}

/// One named value of a record.
#[derive(Debug)]
pub struct Member {
    /// Name of the value.
    pub name: String,
    /// The value itself.
    pub value: Document,
}

/// What a value of a document says.
pub struct DocumentView {
    /// The value written out in its format.
    pub rendered: Seq<char>,
    /// What the value is.
    pub shape: ShapeView,
}

/// What a value of a document is.
pub enum ShapeView {
    /// The absence of a value.
    Null,
    /// A truth value.
    Flag(bool),
    /// A text.
    Text(Seq<char>),
    /// A list of values.
    List(Seq<DocumentView>),
    /// Named values.
    Record(Seq<MemberView>),
    /// A number of JSON, with its value when it is a whole one of sixty-four bits without a sign.
    Number(Option<u64>),
    /// A number or a date of TOML.
    Other,
}

/// One named value of a record.
pub struct MemberView {
    /// Name of the value.
    pub name: Seq<char>,
    /// The value itself.
    pub value: DocumentView,
}

/// What a value of a document says.
pub open spec fn document_view(document: Document) -> DocumentView
    decreases document,
{
    DocumentView { rendered: document.rendered@, shape: shape_view(document.shape) }
}

/// What a value of a document is.
pub open spec fn shape_view(shape: Shape) -> ShapeView
    decreases shape,
{
    match shape {
        Shape::Null => ShapeView::Null,
        Shape::Flag(flag) => ShapeView::Flag(flag),
        Shape::Text(text) => ShapeView::Text(text@),
        Shape::List(items) => ShapeView::List(
            Seq::new(
                items@.len(),
                |i: int|
                    if 0 <= i < items@.len() {
                        document_view(items@[i])
                    } else {
                        arbitrary()
                    },
            ),
        ),
        Shape::Record(members) => ShapeView::Record(
            Seq::new(
                members@.len(),
                |i: int|
                    if 0 <= i < members@.len() {
                        MemberView {
                            name: members@[i].name@,
                            value: document_view(members@[i].value),
                        }
                    } else {
                        arbitrary()
                    },
            ),
        ),
        Shape::Number(value) => ShapeView::Number(value),
        Shape::Other => ShapeView::Other,
    }
}

impl View for Document {
    type V = DocumentView;

    open spec fn view(&self) -> DocumentView {
        document_view(*self)
    }
}

/// The value of the `serde_json` crate.
#[verifier::external_type_specification]
#[verifier::external_body]
pub struct ExJsonValue(serde_json::Value);

/// The value of the `toml` crate.
#[verifier::external_type_specification]
#[verifier::external_body]
pub struct ExTomlValue(toml::Value);

/// What a `serde_json` value holds.
pub uninterp spec fn json_contents(value: serde_json::Value) -> DocumentView;

/// What a `toml` value holds.
pub uninterp spec fn toml_contents(value: toml::Value) -> DocumentView;

/// What `serde_json` reads out of `bytes`: a value, or the message of its failure.
pub uninterp spec fn json_of(bytes: Seq<u8>) -> Result<DocumentView, Seq<char>>;

/// What `toml` reads out of `text`: a value, or the message of its failure.
pub uninterp spec fn toml_of(text: Seq<char>) -> Result<DocumentView, Seq<char>>;

/// `serde_json::from_slice`: the JSON value in `bytes`, or the rendered failure.
#[verifier::external_body]
fn json_parse(bytes: &[u8]) -> (result: Result<serde_json::Value, String>)
    ensures
        match (result, json_of(bytes@)) {
            (Ok(value), Ok(contents)) => json_contents(value) == contents,
            (Err(message), Err(expected)) => message@ == expected,
            _ => false,
        },
{
    serde_json::from_slice::<serde_json::Value>(bytes).map_err(|error| error.to_string())
}

/// `toml::from_str`: the TOML document in `text`, or the rendered failure.
#[verifier::external_body]
fn toml_parse(text: &str) -> (result: Result<toml::Value, String>)
    ensures
        match (result, toml_of(text@)) {
            (Ok(value), Ok(contents)) => toml_contents(value) == contents,
            (Err(message), Err(expected)) => message@ == expected,
            _ => false,
        },
{
    toml::from_str::<toml::Value>(text).map_err(|error| error.to_string())
}

/// `serde_json::Value`: the tree of a value, with what its `Display` writes for each part.
#[verifier::external_body]
fn json_document(value: &serde_json::Value) -> (document: Document)
    ensures
        document@ == json_contents(*value),
{
    let shape = match value {
        serde_json::Value::Null => Shape::Null,
        serde_json::Value::Bool(flag) => Shape::Flag(*flag),
        serde_json::Value::Number(number) => Shape::Number(number.as_u64()),
        serde_json::Value::String(text) => Shape::Text(text.clone()),
        serde_json::Value::Array(items) => Shape::List(items.iter().map(json_document).collect()),
        serde_json::Value::Object(members) => Shape::Record(
            members.iter().map(|(name, value)| Member {
                name: name.clone(),
                value: json_document(value),
            }).collect(),
        ),
    };
    Document { rendered: value.to_string(), shape }
}

/// `toml::Value`: the tree of a value, with what its `Display` writes for each part.
#[verifier::external_body]
fn toml_document(value: &toml::Value) -> (document: Document)
    ensures
        document@ == toml_contents(*value),
{
    let shape = match value {
        toml::Value::Boolean(flag) => Shape::Flag(*flag),
        toml::Value::Integer(_) => Shape::Other,
        toml::Value::Float(_) => Shape::Other,
        toml::Value::Datetime(_) => Shape::Other,
        toml::Value::String(text) => Shape::Text(text.clone()),
        toml::Value::Array(items) => Shape::List(items.iter().map(toml_document).collect()),
        toml::Value::Table(members) => Shape::Record(
            members.iter().map(|(name, value)| Member {
                name: name.clone(),
                value: toml_document(value),
            }).collect(),
        ),
    };
    Document { rendered: value.to_string(), shape }
}

/// A value without parts.
#[derive(Clone, Debug)]
pub enum Scalar {
    /// The absence of a value.
    Null,
    /// A text.
    Text(String),
    /// A number.
    Number(u32),
}

/// One named value without parts.
#[derive(Clone, Debug)]
pub struct ScalarMember {
    /// Name of the value.
    pub name: String,
    /// The value itself.
    pub value: Scalar,
}

/// One named value without parts.
pub struct ScalarView {
    /// Name of the value.
    pub name: Seq<char>,
    /// What the value is.
    pub shape: ShapeView,
}

impl View for ScalarMember {
    type V = ScalarView;

    open spec fn view(&self) -> ScalarView {
        ScalarView {
            name: self.name@,
            shape: match self.value {
                Scalar::Null => ShapeView::Null,
                Scalar::Text(text) => ShapeView::Text(text@),
                Scalar::Number(number) => ShapeView::Number(Some(number as u64)),
            },
        }
    }
}

/// Views of a list of named values.
pub open spec fn scalar_views(members: Seq<ScalarMember>) -> Seq<ScalarView> {
    members.map_values(|member: ScalarMember| member@)
}

/// Whether no two values have the same name.
pub open spec fn names_differ(members: Seq<ScalarView>) -> bool {
    forall|i: int, j: int|
        #![trigger members[i], members[j]]
        0 <= i < j < members.len() ==> members[i].name != members[j].name
}

/// Whether a document holds each of some named values.
pub open spec fn holds_all(document: DocumentView, members: Seq<ScalarView>) -> bool {
    forall|i: int|
        0 <= i < members.len() ==> (member_of(document, (#[trigger] members[i]).name) matches Some(
            value,
        ) && value.shape == members[i].shape)
}

/// Whether a text with a line feed behind it is read as a document that holds these values.
pub open spec fn reads_back(text: Seq<char>, members: Seq<ScalarView>) -> bool {
    json_of(encode_utf8(text.push('\n'))) matches Ok(document) && holds_all(document, members)
}

/// What `serde_json` writes, over several lines, for an object with these members.
pub uninterp spec fn pretty_json(members: Seq<ScalarView>) -> Seq<char>;

/// `serde_json::to_string_pretty` of an object: its text, which reads back with the same members,
/// also with a line feed behind it. How the text is laid out is left unsaid.
#[verifier::external_body]
pub(crate) fn json_pretty(members: Vec<ScalarMember>) -> (text: String)
    requires
        names_differ(scalar_views(members@)),
    ensures
        text@ == pretty_json(scalar_views(members@)),
        reads_back(text@, scalar_views(members@)),
{
    let object = members.into_iter().map(|member| {
        let value = match member.value {
            Scalar::Null => serde_json::Value::Null,
            Scalar::Text(text) => serde_json::Value::String(text),
            Scalar::Number(number) => serde_json::Value::from(number),
        };
        (member.name, value)
    }).collect();
    serde_json::to_string_pretty(&serde_json::Value::Object(object)).expect("JSON object")
}

/// Read a JSON document, or give the message of the failure.
pub fn read_json(bytes: &[u8]) -> (result: Result<Document, String>)
    ensures
        match (result, json_of(bytes@)) {
            (Ok(document), Ok(contents)) => document@ == contents,
            (Err(message), Err(expected)) => message@ == expected,
            _ => false,
        },
{
    match json_parse(bytes) {
        Ok(value) => Ok(json_document(&value)),
        Err(message) => Err(message),
    }
}

/// Read a TOML document, or give the message of the failure.
pub fn read_toml(text: &str) -> (result: Result<Document, String>)
    ensures
        match (result, toml_of(text@)) {
            (Ok(document), Ok(contents)) => document@ == contents,
            (Err(message), Err(expected)) => message@ == expected,
            _ => false,
        },
{
    match toml_parse(text) {
        Ok(value) => Ok(toml_document(&value)),
        Err(message) => Err(message),
    }
}

/// Position of the first member called `name`, from `from` on.
pub open spec fn member_index(members: Seq<MemberView>, name: Seq<char>, from: int) -> Option<int>
    decreases members.len() - from,
{
    if from < 0 || from >= members.len() {
        None
    } else if members[from].name == name {
        Some(from)
    } else {
        member_index(members, name, from + 1)
    }
}

/// The member called `name`, for a record that has one.
pub open spec fn member_of(document: DocumentView, name: Seq<char>) -> Option<DocumentView> {
    match document.shape {
        ShapeView::Record(members) => match member_index(members, name, 0) {
            Some(at) => Some(members[at].value),
            None => None,
        },
        _ => None,
    }
}

/// The text of a value that is one.
pub open spec fn text_of_value(document: DocumentView) -> Option<Seq<char>> {
    match document.shape {
        ShapeView::Text(text) => Some(text),
        _ => None,
    }
}

/// The items of a value that is a list.
pub open spec fn items_of(document: DocumentView) -> Option<Seq<DocumentView>> {
    match document.shape {
        ShapeView::List(items) => Some(items),
        _ => None,
    }
}

/// The text of the member called `name`, for a record whose member is a text.
pub open spec fn member_text(document: DocumentView, name: Seq<char>) -> Option<Seq<char>> {
    match member_of(document, name) {
        Some(value) => text_of_value(value),
        None => None,
    }
}

/// The items of the member called `name`, for a record whose member is a list.
pub open spec fn member_items(document: DocumentView, name: Seq<char>) -> Option<Seq<DocumentView>> {
    match member_of(document, name) {
        Some(value) => items_of(value),
        None => None,
    }
}

/// Views of a list of documents.
pub open spec fn documents_view(documents: Seq<Document>) -> Seq<DocumentView> {
    documents.map_values(|document: Document| document@)
}

proof fn lemma_list_view(items: Vec<Document>)
    ensures
        shape_view(Shape::List(items)) == ShapeView::List(documents_view(items@)),
{
    assert(shape_view(Shape::List(items))->List_0 =~= documents_view(items@));
}

proof fn lemma_record_view(members: Vec<Member>)
    ensures
        shape_view(Shape::Record(members)) is Record,
        shape_view(Shape::Record(members))->Record_0.len() == members@.len(),
        forall|i: int|
            #![trigger members@[i]]
            0 <= i < members@.len() ==> shape_view(Shape::Record(members))->Record_0[i] == (
            MemberView { name: members@[i].name@, value: members@[i].value@ }),
{
}

impl Document {
    /// The member called `name`, for a record that has one.
    pub fn get(&self, name: &str) -> (value: Option<&Document>)
        ensures
            value is Some == member_of(self@, name@) is Some,
            value matches Some(found) ==> Some(found@) == member_of(self@, name@),
    {
        match &self.shape {
            Shape::Record(members) => {
                let mut at: usize = 0;
                while at < members.len()
                    invariant
                        at <= members@.len(),
                        self.shape == Shape::Record(*members),
                        member_index(shape_view(self.shape)->Record_0, name@, 0) == member_index(
                            shape_view(self.shape)->Record_0,
                            name@,
                            at as int,
                        ),
                    decreases members.len() - at,
                {
                    proof {
                        lemma_record_view(*members);
                        assert(shape_view(self.shape)->Record_0[at as int] == (MemberView {
                            name: members@[at as int].name@,
                            value: members@[at as int].value@,
                        }));
                    }
                    if text_equal(members[at].name.as_str(), name) {
                        return Some(&members[at].value);
                    }
                    at = at + 1;
                }
                proof {
                    lemma_record_view(*members);
                }
                None
            },
            _ => None,
        }
    }

    /// The text of a value that is one.
    pub fn as_text(&self) -> (text: Option<&String>)
        ensures
            text is Some == text_of_value(self@) is Some,
            text matches Some(found) ==> Some(found@) == text_of_value(self@),
    {
        match &self.shape {
            Shape::Text(text) => Some(text),
            _ => None,
        }
    }

    /// The items of a value that is a list.
    pub fn as_items(&self) -> (items: Option<&Vec<Document>>)
        ensures
            items is Some == items_of(self@) is Some,
            items matches Some(found) ==> Some(documents_view(found@)) == items_of(self@),
    {
        match &self.shape {
            Shape::List(items) => {
                proof {
                    lemma_list_view(*items);
                }
                Some(items)
            },
            _ => None,
        }
    }

    /// Whether the value is the absence of one.
    pub fn is_null(&self) -> (null: bool)
        ensures
            null == (self@.shape is Null),
    {
        match &self.shape {
            Shape::Null => true,
            _ => false,
        }
    }

    /// Whether the value is a record.
    pub fn is_record(&self) -> (record: bool)
        ensures
            record == (self@.shape is Record),
    {
        match &self.shape {
            Shape::Record(_) => true,
            _ => false,
        }
    }

    /// The text of the member called `name`, for a record whose member is a text.
    pub fn get_text(&self, name: &str) -> (text: Option<&String>)
        ensures
            text is Some == member_text(self@, name@) is Some,
            text matches Some(found) ==> Some(found@) == member_text(self@, name@),
    {
        match self.get(name) {
            Some(value) => value.as_text(),
            None => None,
        }
    }

    /// The items of the member called `name`, for a record whose member is a list.
    pub fn get_items(&self, name: &str) -> (items: Option<&Vec<Document>>)
        ensures
            items is Some == member_items(self@, name@) is Some,
            items matches Some(found) ==> Some(documents_view(found@)) == member_items(self@, name@),
    {
        match self.get(name) {
            Some(value) => value.as_items(),
            None => None,
        }
    }
}

proof fn lemma_member_index_from(members: Seq<MemberView>, name: Seq<char>, from: int)
    requires
        0 <= from <= members.len(),
        forall|i: int| 0 <= i < from ==> (#[trigger] members[i]).name != name,
    ensures
        match member_index(members, name, from) {
            Some(at) => {
                &&& 0 <= at < members.len()
                &&& members[at].name == name
                &&& forall|i: int| 0 <= i < at ==> (#[trigger] members[i]).name != name
            },
            None => forall|i: int| 0 <= i < members.len() ==> (#[trigger] members[i]).name != name,
        },
    decreases members.len() - from,
{
    if from < members.len() && members[from].name != name {
        lemma_member_index_from(members, name, from + 1);
    }
}

/// A member is found in a record under its own name, and in nothing but a record.
pub proof fn lemma_members_are_found(document: DocumentView, name: Seq<char>)
    ensures
        !(document.shape is Record) ==> member_of(document, name) is None,
        document.shape matches ShapeView::Record(members) ==> {
            &&& member_of(document, name) is Some <==> exists|i: int|
                0 <= i < members.len() && (#[trigger] members[i]).name == name
            &&& member_of(document, name) matches Some(value) ==> exists|i: int|
                0 <= i < members.len() && (#[trigger] members[i]).name == name && members[i].value
                    == value && forall|j: int| 0 <= j < i ==> (#[trigger] members[j]).name != name
        },
        member_text(document, name) matches Some(text) ==> (member_of(document, name) matches Some(
            value,
        ) && value.shape == ShapeView::Text(text)),
        member_items(document, name) matches Some(items) ==> (member_of(document, name) matches Some(
            value,
        ) && value.shape == ShapeView::List(items)),
        member_of(document, name) matches Some(value) ==> {
            &&& value.shape is Text ==> member_text(document, name) is Some
            &&& value.shape is List ==> member_items(document, name) is Some
        },
{
    if let ShapeView::Record(members) = document.shape {
        lemma_member_index_from(members, name, 0);
    }
}

} // verus!
