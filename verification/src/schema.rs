//! The names of schemas, collections and views.

pub mod view;

use crate::document::{DocumentView, OwnedDocument};
use crate::error::{Error, ErrorView};
use crate::schema::view::{
    map_result_view, reduce_result_view, values_view, Emitted, Mapping,
};
use crate::text::str_equal;
use vstd::prelude::*;
use vstd::string::{StrSliceExecFns, StringExecFns};

verus! {

/// Whether `c` may stand in a name: a letter of the basic alphabet, a digit,
/// `_` or `-`.
pub open spec fn is_name_char(c: char) -> bool {
    ||| 'a' <= c <= 'z'
    ||| 'A' <= c <= 'Z'
    ||| '0' <= c <= '9'
    ||| c == '_'
    ||| c == '-'
}

/// Whether `s` is a name: not empty, and made of the characters of names.
pub open spec fn valid_name(s: Seq<char>) -> bool {
    &&& s.len() > 0
    &&& forall|i: int| 0 <= i < s.len() ==> is_name_char(#[trigger] s[i])
}

/// Whether `c` may stand in the name of a database or of a user: a small
/// letter, a digit or `-`, and for a user also `_`.
pub open spec fn is_lower_name_char(c: char, underscore: bool) -> bool {
    ||| 'a' <= c <= 'z'
    ||| '0' <= c <= '9'
    ||| c == '-'
    ||| (underscore && c == '_')
}

/// Whether `s` is the name of a database (`underscore` false) or of a user
/// (`underscore` true): between 1 and 64 of their characters.
pub open spec fn valid_lower_name(s: Seq<char>, underscore: bool) -> bool {
    &&& 1 <= s.len() <= 64
    &&& forall|i: int| 0 <= i < s.len() ==> is_lower_name_char(#[trigger] s[i], underscore)
}

/// Whether `s` is a name.
pub fn check_name(s: &str) -> (ok: bool)
    ensures
        ok == valid_name(s@),
{
    if !s.is_ascii() {
        return false;
    }
    let n = s.unicode_len();
    if n == 0 {
        return false;
    }
    let mut i: usize = 0;
    while i < n
        invariant
            s.is_ascii(),
            n == s@.len(),
            i <= n,
            forall|j: int| 0 <= j < i ==> is_name_char(#[trigger] s@[j]),
        decreases n - i,
    {
        let b = s.get_ascii(i);
        let fits = (0x61 <= b && b <= 0x7a) || (0x41 <= b && b <= 0x5a) || (0x30 <= b && b
            <= 0x39) || b == 0x5f || b == 0x2d;
        if !fits {
            return false;
        }
        i += 1;
    }
    true
}

/// Whether `s` is the name of a database (`underscore` false) or of a user
/// (`underscore` true).
pub fn check_lower_name(s: &str, underscore: bool) -> (ok: bool)
    ensures
        ok == valid_lower_name(s@, underscore),
{
    if !s.is_ascii() {
        return false;
    }
    let n = s.unicode_len();
    if n == 0 || n > 64 {
        return false;
    }
    let mut i: usize = 0;
    while i < n
        invariant
            s.is_ascii(),
            n == s@.len(),
            i <= n,
            forall|j: int| 0 <= j < i ==> is_lower_name_char(#[trigger] s@[j], underscore),
        decreases n - i,
    {
        let b = s.get_ascii(i);
        let fits = (0x61 <= b && b <= 0x7a) || (0x30 <= b && b <= 0x39) || b == 0x2d || (
        underscore && b == 0x5f);
        if !fits {
            return false;
        }
        i += 1;
    }
    true
}

/// The small letter of a capital letter of the basic alphabet; any other
/// character itself.
pub open spec fn fold_char(c: char) -> char {
    if 'A' <= c <= 'Z' {
        ((c as u32) + 32) as char
    } else {
        c
    }
}

/// The text with small letters in place of its capital letters.
pub open spec fn fold(s: Seq<char>) -> Seq<char> {
    Seq::new(s.len(), |i: int| fold_char(s[i]))
}

/// Whether two names are the same but for the case of their letters.
pub fn same_ignoring_case(a: &str, b: &str) -> (r: bool)
    requires
        valid_name(a@),
        valid_name(b@),
    ensures
        r == (fold(a@) == fold(b@)),
{
    assert(a.is_ascii() && b.is_ascii());
    let n = a.unicode_len();
    if n != b.unicode_len() {
        assert(fold(a@).len() != fold(b@).len());
        return false;
    }
    let mut i: usize = 0;
    while i < n
        invariant
            a.is_ascii(),
            b.is_ascii(),
            valid_name(a@),
            valid_name(b@),
            n == a@.len(),
            n == b@.len(),
            i <= n,
            forall|j: int| 0 <= j < i ==> fold_char(#[trigger] a@[j]) == fold_char(b@[j]),
        decreases n - i,
    {
        let x = a.get_ascii(i);
        let y = b.get_ascii(i);
        let folded_x = if 0x41 <= x && x <= 0x5a { x + 32 } else { x };
        let folded_y = if 0x41 <= y && y <= 0x5a { y + 32 } else { y };
        proof {
            assert(is_name_char(a@[i as int]));
            assert(is_name_char(b@[i as int]));
            assert(fold_char(a@[i as int]) as u8 == folded_x);
            assert(fold_char(b@[i as int]) as u8 == folded_y);
        }
        if folded_x != folded_y {
            assert(fold(a@)[i as int] != fold(b@)[i as int]);
            return false;
        }
        i += 1;
    }
    assert(fold(a@) =~= fold(b@));
    true
}

/// The error of a name that is no name.
#[derive(Debug, PartialEq, Eq)]
pub struct InvalidNameError(pub String);

/// A name: of an authority, a collection, a view, a schema or a request.
#[derive(Debug, PartialEq, Eq, Hash)]
pub struct Name {
    /// The text of the name.
    pub name: String,
}

impl View for Name {
    type V = Seq<char>;

    open spec fn view(&self) -> Seq<char> {
        self.name@
    }
}

impl Clone for Name {
    fn clone(&self) -> (r: Name)
        ensures
            r@ == self@,
    {
        Name { name: self.name.clone() }
    }
}

impl Name {
    /// The name with the text `name`, which must be made of the characters
    /// of names and not be empty.
    pub fn new(name: &str) -> (r: Result<Name, InvalidNameError>)
        ensures
            match r {
                Ok(n) => valid_name(name@) && n@ == name@,
                Err(e) => !valid_name(name@) && e.0@ == name@,
            },
    {
        if check_name(name) {
            Ok(Name { name: String::from_str(name) })
        } else {
            Err(InvalidNameError(String::from_str(name)))
        }
    }

    /// The name with the text `name`, whatever it holds.
    pub fn from(name: &str) -> (r: Name)
        ensures
            r@ == name@,
    {
        Name { name: String::from_str(name) }
    }

    /// The text of the name.
    pub fn as_str(&self) -> (s: &str)
        ensures
            s@ == self@,
    {
        self.name.as_str()
    }

    /// Whether the two names have the same text.
    pub fn equals(&self, other: &Name) -> (r: bool)
        ensures
            r == (self@ == other@),
    {
        str_equal(self.name.as_str(), other.name.as_str())
    }
}

/// The name of a collection: the authority that defines it, and its name
/// under that authority.
#[derive(Debug, PartialEq, Eq, Hash)]
pub struct CollectionName {
    /// The authority that defines the collection.
    pub authority: Name,
    /// The name of the collection.
    pub name: Name,
}

impl View for CollectionName {
    type V = (Seq<char>, Seq<char>);

    open spec fn view(&self) -> (Seq<char>, Seq<char>) {
        (self.authority@, self.name@)
    }
}

impl Clone for CollectionName {
    fn clone(&self) -> (r: CollectionName)
        ensures
            r@ == self@,
    {
        CollectionName { authority: self.authority.clone(), name: self.name.clone() }
    }
}

impl crate::assoc::KeyEq for CollectionName {
    fn key_eq(&self, other: &Self) -> (r: bool) {
        self.authority.equals(&other.authority) && self.name.equals(&other.name)
    }
}

impl CollectionName {
    /// Whether both parts are names.
    pub open spec fn wf(&self) -> bool {
        valid_name(self.authority@) && valid_name(self.name@)
    }

    /// The name of the collection `name` of `authority`; both must be names.
    pub fn new(authority: &str, name: &str) -> (r: Result<CollectionName, InvalidNameError>)
        ensures
            match r {
                Ok(n) => valid_name(authority@) && valid_name(name@) && n@ == (authority@, name@),
                Err(e) => if valid_name(authority@) {
                    !valid_name(name@) && e.0@ == name@
                } else {
                    e.0@ == authority@
                },
            },
    {
        let authority = match Name::new(authority) {
            Ok(n) => n,
            Err(e) => { return Err(e); },
        };
        let name = match Name::new(name) {
            Ok(n) => n,
            Err(e) => { return Err(e); },
        };
        Ok(CollectionName { authority, name })
    }

    /// The text of the name: the authority, a dot, and the name.
    pub open spec fn spec_to_string(&self) -> Seq<char> {
        self.authority@ + "."@ + self.name@
    }

    /// The text of the name: the authority, a dot, and the name.
    pub fn to_string(&self) -> (s: String)
        ensures
            s@ == self.spec_to_string(),
    {
        let mut s = self.authority.name.clone();
        s.append(".");
        s.append(self.name.as_str());
        s
    }
}

/// The name of a schema: the authority that defines it, and its name under
/// that authority.
#[derive(Debug, PartialEq, Eq, Hash)]
pub struct SchemaName {
    /// The authority that defines the schema.
    pub authority: Name,
    /// The name of the schema.
    pub name: Name,
}

impl View for SchemaName {
    type V = (Seq<char>, Seq<char>);

    open spec fn view(&self) -> (Seq<char>, Seq<char>) {
        (self.authority@, self.name@)
    }
}

impl Clone for SchemaName {
    fn clone(&self) -> (r: SchemaName)
        ensures
            r@ == self@,
    {
        SchemaName { authority: self.authority.clone(), name: self.name.clone() }
    }
}

impl crate::assoc::KeyEq for SchemaName {
    fn key_eq(&self, other: &Self) -> (r: bool) {
        self.authority.equals(&other.authority) && self.name.equals(&other.name)
    }
}

impl SchemaName {
    /// The name of the schema `name` of `authority`; both must be names.
    pub fn new(authority: &str, name: &str) -> (r: Result<SchemaName, InvalidNameError>)
        ensures
            match r {
                Ok(n) => valid_name(authority@) && valid_name(name@) && n@ == (authority@, name@),
                Err(e) => if valid_name(authority@) {
                    !valid_name(name@) && e.0@ == name@
                } else {
                    e.0@ == authority@
                },
            },
    {
        let authority = match Name::new(authority) {
            Ok(n) => n,
            Err(e) => { return Err(e); },
        };
        let name = match Name::new(name) {
            Ok(n) => n,
            Err(e) => { return Err(e); },
        };
        Ok(SchemaName { authority, name })
    }

    /// The text of the name: the authority, a dot, and the name.
    pub open spec fn spec_to_string(&self) -> Seq<char> {
        self.authority@ + "."@ + self.name@
    }

    /// The text of the name: the authority, a dot, and the name.
    pub fn to_string(&self) -> (s: String)
        ensures
            s@ == self.spec_to_string(),
    {
        let mut s = self.authority.name.clone();
        s.append(".");
        s.append(self.name.as_str());
        s
    }
}

/// The name of a view: the collection it belongs to, and its name in that
/// collection.
#[derive(Debug, PartialEq, Eq, Hash)]
pub struct ViewName {
    /// The collection that the view maps.
    pub collection: CollectionName,
    /// The name of the view.
    pub name: Name,
}

impl View for ViewName {
    type V = ((Seq<char>, Seq<char>), Seq<char>);

    open spec fn view(&self) -> ((Seq<char>, Seq<char>), Seq<char>) {
        (self.collection@, self.name@)
    }
}

impl Clone for ViewName {
    fn clone(&self) -> (r: ViewName)
        ensures
            r@ == self@,
    {
        ViewName { collection: self.collection.clone(), name: self.name.clone() }
    }
}

impl crate::assoc::KeyEq for ViewName {
    fn key_eq(&self, other: &Self) -> (r: bool) {
        self.collection.key_eq(&other.collection) && self.name.equals(&other.name)
    }
}

impl ViewName {
    /// The text of the name: that of the collection, a dot, and the name.
    pub open spec fn spec_to_string(&self) -> Seq<char> {
        self.collection.spec_to_string() + "."@ + self.name@
    }

    /// The text of the name: that of the collection, a dot, and the name.
    pub fn to_string(&self) -> (s: String)
        ensures
            s@ == self.spec_to_string(),
    {
        let mut s = self.collection.to_string();
        s.append(".");
        s.append(self.name.as_str());
        s
    }
}

/// A reference to something that has a unique name and a unique id.
#[derive(Debug, PartialEq, Eq)]
pub enum NamedReference {
    /// By its name.
    Name(String),
    /// By its id.
    Id(u64),
}

impl Clone for NamedReference {
    fn clone(&self) -> (r: NamedReference)
        ensures
            r == *self,
    {
        match self {
            NamedReference::Name(n) => NamedReference::Name(n.clone()),
            NamedReference::Id(id) => NamedReference::Id(*id),
        }
    }
}

/// What a schema declares of a view.
#[derive(Debug, PartialEq, Eq)]
pub struct ViewDefinition {
    /// The name of the view.
    pub name: ViewName,
    /// Whether a key of the view may belong to one document only.
    pub unique: bool,
    /// The version of the view's map function.
    pub version: u64,
}

impl Clone for ViewDefinition {
    fn clone(&self) -> (r: ViewDefinition)
        ensures
            r.name@ == self.name@,
            r.unique == self.unique,
            r.version == self.version,
    {
        ViewDefinition { name: self.name.clone(), unique: self.unique, version: self.version }
    }
}

impl View for ViewDefinition {
    type V = Declared;

    open spec fn view(&self) -> Declared {
        Declared { name: self.name@, unique: self.unique, version: self.version }
    }
}

/// What a schema declares of a view, as plain values.
pub struct Declared {
    /// The name of the view: that of its collection, and its own.
    pub name: ((Seq<char>, Seq<char>), Seq<char>),
    /// Whether a key of the view may belong to one document only.
    pub unique: bool,
    /// The version of the view's map function.
    pub version: u64,
}

/// The collections and the views of a schema, as plain values, each in the
/// order in which they were defined.
pub struct SchematicView {
    /// The names of the collections.
    pub collections: Seq<(Seq<char>, Seq<char>)>,
    /// The views.
    pub views: Seq<Declared>,
}

/// What definitions make of a schema: the schema after them, and the error
/// of the first that failed, if one failed.
pub struct Defined {
    /// The schema after the definitions.
    pub schema: SchematicView,
    /// The error of the definition that failed.
    pub error: Option<ErrorView>,
}

/// The text of the name of a collection: the authority, a dot, and the
/// name.
pub open spec fn collection_text(name: (Seq<char>, Seq<char>)) -> Seq<char> {
    name.0 + "."@ + name.1
}

/// The text of the name of a view: that of the collection, a dot, and the
/// name.
pub open spec fn view_text(name: ((Seq<char>, Seq<char>), Seq<char>)) -> Seq<char> {
    collection_text(name.0) + "."@ + name.1
}

/// The schema `schema` together with the result `r` of a definition.
pub open spec fn outcome(schema: SchematicView, r: Result<(), Error>) -> Defined {
    Defined {
        schema,
        error: match r {
            Ok(_) => None,
            Err(e) => Some(e@),
        },
    }
}

impl SchematicView {
    /// The schema without collections.
    pub open spec fn empty() -> SchematicView {
        SchematicView { collections: Seq::empty(), views: Seq::empty() }
    }

    /// Whether a collection of this name is defined.
    pub open spec fn has_collection(self, name: (Seq<char>, Seq<char>)) -> bool {
        exists|i: int| 0 <= i < self.collections.len() && #[trigger] self.collections[i] == name
    }

    /// Whether a collection is defined whose name is this one but for the
    /// case of its letters.
    pub open spec fn has_collection_like(self, name: (Seq<char>, Seq<char>)) -> bool {
        exists|i: int|
            0 <= i < self.collections.len() && fold((#[trigger] self.collections[i]).0) == fold(
                name.0,
            ) && fold(self.collections[i].1) == fold(name.1)
    }

    /// Whether a view of this name is defined.
    pub open spec fn has_view(self, name: ((Seq<char>, Seq<char>), Seq<char>)) -> bool {
        exists|i: int| 0 <= i < self.views.len() && (#[trigger] self.views[i]).name == name
    }

    /// What the definition of the collection `name` makes of the schema:
    /// the collection comes last, unless a collection is defined already
    /// whose name is this one but for the case of its letters.
    pub open spec fn define_collection(self, name: (Seq<char>, Seq<char>)) -> Defined {
        if self.has_collection_like(name) {
            Defined { schema: self, error: Some(ErrorView::InvalidName(collection_text(name))) }
        } else {
            Defined {
                schema: SchematicView {
                    collections: self.collections.push(name),
                    views: self.views,
                },
                error: None,
            }
        }
    }

    /// What the definition of the view `view` makes of the schema: the
    /// view comes last, unless its collection is not defined, or a view of
    /// its name is.
    pub open spec fn define_view(self, view: Declared) -> Defined {
        if !self.has_collection(view.name.0) {
            Defined { schema: self, error: Some(ErrorView::CollectionNotFound) }
        } else if self.has_view(view.name) {
            Defined { schema: self, error: Some(ErrorView::InvalidName(view_text(view.name))) }
        } else {
            Defined {
                schema: SchematicView {
                    collections: self.collections,
                    views: self.views.push(view),
                },
                error: None,
            }
        }
    }

    /// What the definition of the view `view` of the collection
    /// `V::Collection` makes of the schema: where the two parts of the
    /// name of the collection and the name of the view are names, what the
    /// definition of a view of that name, with what `view` says of itself,
    /// makes of it; else nothing, and the error holds the first of the
    /// three that is no name.
    pub open spec fn define_view_of<V: MapView>(self, view: V) -> Defined {
        let collection = V::Collection::spec_collection_name();
        if !valid_name(collection.0) {
            Defined { schema: self, error: Some(ErrorView::InvalidName(collection.0)) }
        } else if !valid_name(collection.1) {
            Defined { schema: self, error: Some(ErrorView::InvalidName(collection.1)) }
        } else if !valid_name(view.spec_name()) {
            Defined { schema: self, error: Some(ErrorView::InvalidName(view.spec_name())) }
        } else {
            self.define_view(
                Declared {
                    name: (collection, view.spec_name()),
                    unique: view.spec_unique(),
                    version: view.spec_version(),
                },
            )
        }
    }
}

impl Defined {
    /// What the definition of the collection `name` makes of the schema,
    /// where no definition before it failed.
    pub open spec fn and_collection(self, name: (Seq<char>, Seq<char>)) -> Defined {
        if self.error is Some {
            self
        } else {
            self.schema.define_collection(name)
        }
    }

    /// What the definition of the view `view` makes of the schema, where
    /// no definition before it failed.
    pub open spec fn and_view(self, view: Declared) -> Defined {
        if self.error is Some {
            self
        } else {
            self.schema.define_view(view)
        }
    }
}

/// The collections and the views of a schema.
pub struct Schematic {
    collections: Vec<CollectionName>,
    views: Vec<ViewDefinition>,
}

impl View for Schematic {
    type V = SchematicView;

    open spec fn view(&self) -> SchematicView {
        SchematicView {
            collections: self.collections(),
            views: self.views().map_values(|definition: ViewDefinition| definition@),
        }
    }
}

impl Schematic {
    /// The names of the collections, in the order in which they were defined.
    pub closed spec fn collections(&self) -> Seq<(Seq<char>, Seq<char>)> {
        Seq::new(self.collections@.len(), |i: int| self.collections@[i]@)
    }

    /// The views, in the order in which they were defined.
    pub closed spec fn views(&self) -> Seq<ViewDefinition> {
        self.views@
    }

    /// Whether a collection of this name is defined.
    pub open spec fn has_collection(&self, name: (Seq<char>, Seq<char>)) -> bool {
        exists|i: int| 0 <= i < self.collections().len() && #[trigger] self.collections()[i] == name
    }

    /// Whether a collection is defined whose name is this one but for the
    /// case of its letters.
    pub open spec fn has_collection_like(&self, name: (Seq<char>, Seq<char>)) -> bool {
        exists|i: int|
            0 <= i < self.collections().len() && fold((#[trigger] self.collections()[i]).0) == fold(
                name.0,
            ) && fold(self.collections()[i].1) == fold(name.1)
    }

    /// Whether a view of this name is defined.
    pub open spec fn has_view(&self, name: ((Seq<char>, Seq<char>), Seq<char>)) -> bool {
        exists|i: int| 0 <= i < self.views().len() && (#[trigger] self.views()[i]).name@ == name
    }

    /// The invariant of a schema: the names of its collections are names
    /// and differ in more than the case of their letters, no view is
    /// defined twice, and every view belongs to a collection that is
    /// defined.
    pub open spec fn wf(&self) -> bool {
        &&& forall|i: int|
            0 <= i < self.collections().len() ==> valid_name((#[trigger] self.collections()[i]).0)
                && valid_name(self.collections()[i].1)
        &&& forall|i: int, j: int|
            0 <= i < j < self.collections().len() ==> !(fold((#[trigger] self.collections()[i]).0)
                == fold((#[trigger] self.collections()[j]).0) && fold(self.collections()[i].1)
                == fold(self.collections()[j].1))
        &&& forall|i: int, j: int|
            0 <= i < j < self.views().len() ==> (#[trigger] self.views()[i]).name@ != (
            #[trigger] self.views()[j]).name@
        &&& forall|i: int|
            0 <= i < self.views().len() ==> self.has_collection(
                (#[trigger] self.views()[i]).name.collection@,
            )
    }

    /// The schema and its plain values agree on what is defined.
    pub proof fn lemma_defined(&self)
        ensures
            forall|name: (Seq<char>, Seq<char>)|
                #[trigger] self.has_collection(name) == self@.has_collection(name),
            forall|name: (Seq<char>, Seq<char>)|
                #[trigger] self.has_collection_like(name) == self@.has_collection_like(name),
            forall|name: ((Seq<char>, Seq<char>), Seq<char>)|
                #[trigger] self.has_view(name) == self@.has_view(name),
    {
        assert(self@.collections == self.collections());
        assert forall|name: (Seq<char>, Seq<char>)|
            #[trigger] self.has_collection(name) == self@.has_collection(name) by {
            if self.has_collection(name) {
                let i = choose|i: int|
                    0 <= i < self.collections().len() && #[trigger] self.collections()[i] == name;
                assert(self@.collections[i] == name);
            }
            if self@.has_collection(name) {
                let i = choose|i: int|
                    0 <= i < self@.collections.len() && #[trigger] self@.collections[i] == name;
                assert(self.collections()[i] == name);
            }
        }
        assert forall|name: (Seq<char>, Seq<char>)|
            #[trigger] self.has_collection_like(name) == self@.has_collection_like(name) by {
            if self.has_collection_like(name) {
                let i = choose|i: int|
                    0 <= i < self.collections().len() && fold(
                        (#[trigger] self.collections()[i]).0,
                    ) == fold(name.0) && fold(self.collections()[i].1) == fold(name.1);
                assert(fold(self@.collections[i].0) == fold(name.0));
            }
            if self@.has_collection_like(name) {
                let i = choose|i: int|
                    0 <= i < self@.collections.len() && fold(
                        (#[trigger] self@.collections[i]).0,
                    ) == fold(name.0) && fold(self@.collections[i].1) == fold(name.1);
                assert(fold(self.collections()[i].0) == fold(name.0));
            }
        }
        assert forall|name: ((Seq<char>, Seq<char>), Seq<char>)|
            #[trigger] self.has_view(name) == self@.has_view(name) by {
            if self.has_view(name) {
                let i = choose|i: int|
                    0 <= i < self.views().len() && (#[trigger] self.views()[i]).name@ == name;
                assert(self@.views[i].name == name);
            }
            if self@.has_view(name) {
                let i = choose|i: int|
                    0 <= i < self@.views.len() && (#[trigger] self@.views[i]).name == name;
                assert(self.views()[i].name@ == name);
            }
        }
    }

    /// A schema without collections.
    pub fn new() -> (schema: Schematic)
        ensures
            schema.wf(),
            schema.collections().len() == 0,
            schema.views().len() == 0,
            schema@ == SchematicView::empty(),
    {
        let schema = Schematic { collections: Vec::new(), views: Vec::new() };
        proof {
            assert(schema@.collections =~= Seq::empty());
            assert(schema@.views =~= Seq::empty());
        }
        schema
    }

    /// Whether a collection of this name is defined.
    pub fn contains_collection(&self, name: &CollectionName) -> (r: bool)
        ensures
            r == self.has_collection(name@),
    {
        let mut i: usize = 0;
        while i < self.collections.len()
            invariant
                i <= self.collections@.len(),
                forall|j: int| 0 <= j < i ==> #[trigger] self.collections()[j] != name@,
            decreases self.collections@.len() - i,
        {
            if crate::assoc::KeyEq::key_eq(&self.collections[i], name) {
                assert(self.collections()[i as int] == name@);
                return true;
            }
            i += 1;
        }
        false
    }

    /// The index of the view of this name.
    pub fn find_view(&self, name: &ViewName) -> (r: Option<usize>)
        ensures
            match r {
                Some(i) => i < self.views().len() && self.views()[i as int].name@ == name@,
                None => !self.has_view(name@),
            },
    {
        let mut i: usize = 0;
        while i < self.views.len()
            invariant
                i <= self.views@.len(),
                forall|j: int| 0 <= j < i ==> (#[trigger] self.views()[j]).name@ != name@,
            decreases self.views@.len() - i,
        {
            if crate::assoc::KeyEq::key_eq(&self.views[i].name, name) {
                return Some(i);
            }
            i += 1;
        }
        None
    }

    /// The number of views.
    pub fn view_count(&self) -> (n: usize)
        ensures
            n == self.views().len(),
    {
        self.views.len()
    }

    /// The view at position `i`.
    pub fn view_at(&self, i: usize) -> (v: &ViewDefinition)
        requires
            i < self.views().len(),
        ensures
            *v == self.views()[i as int],
    {
        &self.views[i]
    }

    /// The number of collections.
    pub fn collection_count(&self) -> (n: usize)
        ensures
            n == self.collections().len(),
    {
        self.collections.len()
    }

    /// The collection at position `i`.
    pub fn collection_at(&self, i: usize) -> (c: &CollectionName)
        requires
            i < self.collections().len(),
        ensures
            c@ == self.collections()[i as int],
    {
        &self.collections[i]
    }

    /// Whether a collection is defined whose name is `name` but for the
    /// case of its letters.
    pub fn contains_collection_like(&self, name: &CollectionName) -> (r: bool)
        requires
            self.wf(),
            name.wf(),
        ensures
            r == self.has_collection_like(name@),
    {
        let mut i: usize = 0;
        while i < self.collections.len()
            invariant
                self.wf(),
                name.wf(),
                i <= self.collections@.len(),
                forall|j: int|
                    0 <= j < i ==> !(fold((#[trigger] self.collections()[j]).0) == fold(name@.0)
                        && fold(self.collections()[j].1) == fold(name@.1)),
            decreases self.collections@.len() - i,
        {
            proof {
                assert(valid_name(self.collections()[i as int].0));
            }
            if same_ignoring_case(self.collections[i].authority.as_str(), name.authority.as_str())
                && same_ignoring_case(self.collections[i].name.as_str(), name.name.as_str()) {
                assert(fold(self.collections()[i as int].0) == fold(name@.0));
                return true;
            }
            i += 1;
        }
        false
    }

    /// Defines a collection. Fails with `InvalidName`, and changes nothing,
    /// if a collection is defined already whose name is this one but for
    /// the case of its letters.
    pub fn define_collection(&mut self, name: CollectionName) -> (r: Result<(), Error>)
        requires
            old(self).wf(),
            name.wf(),
        ensures
            final(self).wf(),
            final(self).views() == old(self).views(),
            match r {
                Ok(_) => !old(self).has_collection_like(name@) && final(self).collections() == old(
                    self,
                ).collections().push(name@),
                Err(e) => old(self).has_collection_like(name@) && final(self).collections() == old(
                    self,
                ).collections() && e@ == ErrorView::InvalidName(name.spec_to_string()),
            },
            outcome(final(self)@, r) == old(self)@.define_collection(name@),
    {
        proof {
            self.lemma_defined();
        }
        if self.contains_collection_like(&name) {
            return Err(Error::InvalidName(name.to_string()));
        }
        let ghost before = *self;
        self.collections.push(name);
        proof {
            assert(self.collections() =~= before.collections().push(name@));
            assert forall|i: int| 0 <= i < self.collections().len() implies valid_name(
                (#[trigger] self.collections()[i]).0,
            ) && valid_name(self.collections()[i].1) by {
                if i < before.collections().len() {
                    assert(self.collections()[i] == before.collections()[i]);
                }
            }
            assert forall|i: int, j: int| 0 <= i < j < self.collections().len() implies !(fold(
                (#[trigger] self.collections()[i]).0,
            ) == fold((#[trigger] self.collections()[j]).0) && fold(self.collections()[i].1)
                == fold(self.collections()[j].1)) by {
                if j < before.collections().len() {
                    assert(self.collections()[i] == before.collections()[i]);
                    assert(self.collections()[j] == before.collections()[j]);
                } else {
                    assert(self.collections()[i] == before.collections()[i]);
                }
            }
            assert forall|i: int| 0 <= i < self.views().len() implies self.has_collection(
                (#[trigger] self.views()[i]).name.collection@,
            ) by {
                let c = self.views()[i].name.collection@;
                assert(before.views()[i].name.collection@ == c);
                assert(before.has_collection(c));
                let j = choose|j: int|
                    0 <= j < before.collections().len() && #[trigger] before.collections()[j] == c;
                assert(self.collections()[j] == c);
            }
        }
        Ok(())
    }

    /// Defines the view `view` of the collection `V::Collection`, with what
    /// the view says of itself. Fails with `InvalidName` where the name of
    /// the collection or of the view is no name, and as
    /// [`Schematic::define_view`] does.
    pub fn define_view_of<V: MapView>(&mut self, view: &V) -> (r: Result<(), Error>)
        requires
            old(self).wf(),
        ensures
            final(self).wf(),
            final(self).collections() == old(self).collections(),
            r is Ok ==> final(self).views().len() == old(self).views().len() + 1
                && final(self).views().drop_last() == old(self).views()
                && final(self).views().last().name@ == (
                V::Collection::spec_collection_name(),
                view.spec_name(),
            ) && final(self).views().last().unique == view.spec_unique()
                && final(self).views().last().version == view.spec_version(),
            r is Err ==> final(self).views() == old(self).views(),
            outcome(final(self)@, r) == old(self)@.define_view_of(*view),
    {
        let collection = match V::Collection::collection_name() {
            Ok(name) => name,
            Err(e) => { return Err(Error::InvalidName(e.0)); },
        };
        let name = match view.name() {
            Ok(name) => name,
            Err(e) => { return Err(Error::InvalidName(e.0)); },
        };
        let definition = ViewDefinition {
            name: ViewName { collection, name },
            unique: view.unique(),
            version: view.version(),
        };
        let ghost before = self.views();
        let r = self.define_view(definition);
        proof {
            if r is Ok {
                assert(self.views().drop_last() =~= before);
            }
        }
        r
    }

    /// Defines a view. Fails, and changes nothing, with `CollectionNotFound`
    /// if the collection of the view is not defined, and with `InvalidName`
    /// if a view of this name is defined already.
    pub fn define_view(&mut self, definition: ViewDefinition) -> (r: Result<(), Error>)
        requires
            old(self).wf(),
        ensures
            final(self).wf(),
            final(self).collections() == old(self).collections(),
            match r {
                Ok(_) => {
                    &&& old(self).has_collection(definition.name.collection@)
                    &&& !old(self).has_view(definition.name@)
                    &&& final(self).views() == old(self).views().push(definition)
                },
                Err(e) => {
                    &&& final(self).views() == old(self).views()
                    &&& if !old(self).has_collection(definition.name.collection@) {
                        e@ == ErrorView::CollectionNotFound
                    } else {
                        old(self).has_view(definition.name@) && e@ == ErrorView::InvalidName(
                            definition.name.spec_to_string(),
                        )
                    }
                },
            },
            outcome(final(self)@, r) == old(self)@.define_view(definition@),
    {
        proof {
            self.lemma_defined();
        }
        if !self.contains_collection(&definition.name.collection) {
            return Err(Error::CollectionNotFound);
        }
        if self.find_view(&definition.name).is_some() {
            proof {
                assert(self.has_view(definition.name@));
                assert(definition.name.spec_to_string() == view_text(definition@.name));
            }
            return Err(Error::InvalidName(definition.name.to_string()));
        }
        let ghost before = *self;
        self.views.push(definition);
        proof {
            assert(self@.views =~= before@.views.push(definition@));
        }
        Ok(())
    }
}

/// A collection of documents.
pub trait Collection {
    /// The two parts of the name of the collection.
    spec fn spec_collection_name() -> (Seq<char>, Seq<char>);

    /// The name of the collection.
    /// What the definition of the views of the collection makes of a
    /// schema.
    spec fn spec_define_views(schema: SchematicView) -> Defined;

    /// The name of the collection; the error holds the first of the two
    /// parts that is no name.
    fn collection_name() -> (r: Result<CollectionName, InvalidNameError>)
        ensures
            match r {
                Ok(n) => n@ == Self::spec_collection_name() && n.wf(),
                Err(e) => if valid_name(Self::spec_collection_name().0) {
                    !valid_name(Self::spec_collection_name().1) && e.0@
                        == Self::spec_collection_name().1
                } else {
                    e.0@ == Self::spec_collection_name().0
                },
            },
    ;

    /// Defines the views of the collection.
    fn define_views(schema: &mut Schematic) -> (r: Result<(), Error>)
        requires
            old(schema).wf(),
        ensures
            final(schema).wf(),
            final(schema).collections() == old(schema).collections(),
            outcome(final(schema)@, r) == Self::spec_define_views(old(schema)@),
    ;
}

/// A view: an index of a collection that a map function derives from its
/// documents.
pub trait MapView {
    /// The collection that the view maps.
    type Collection: Collection;

    /// Whether a key of the view may belong to one document only.
    spec fn spec_unique(&self) -> bool;

    /// The version of the map function.
    spec fn spec_version(&self) -> u64;

    /// The text of the name of the view.
    spec fn spec_name(&self) -> Seq<char>;

    /// What the map function emits for a document, or the error that it
    /// fails with.
    spec fn spec_map(&self, document: DocumentView) -> Result<Emitted, ErrorView>;

    /// Whether a key of the view may belong to one document only.
    fn unique(&self) -> (r: bool)
        ensures
            r == self.spec_unique(),
    ;

    /// The version of the map function. A change of the version has the
    /// view derived anew.
    fn version(&self) -> (r: u64)
        ensures
            r == self.spec_version(),
    ;

    /// The name of the view.
    fn name(&self) -> (r: Result<Name, InvalidNameError>)
        ensures
            match r {
                Ok(n) => n@ == self.spec_name() && valid_name(n@),
                Err(e) => !valid_name(self.spec_name()) && e.0@ == self.spec_name(),
            },
    ;

    /// The map function: the keys and values of the view for a document.
    fn map(&self, document: &OwnedDocument) -> (r: Result<Vec<Mapping>, Error>)
        ensures
            map_result_view(r) == self.spec_map(document@),
    ;
}

/// A schema: collections with their views, and the map and reduce
/// functions of the views.
pub trait Schema {
    /// What the map function of a view emits for a document, or the error
    /// that it fails with.
    spec fn spec_map(view: ((Seq<char>, Seq<char>), Seq<char>), document: DocumentView) -> Result<
        Emitted,
        ErrorView,
    >;

    /// What the reduce function of a view makes of values, or the error
    /// that it fails with.
    spec fn spec_reduce(view: ((Seq<char>, Seq<char>), Seq<char>), values: Seq<Seq<u8>>) -> Result<
        Seq<u8>,
        ErrorView,
    >;

    /// The two parts of the name of the schema.
    spec fn spec_schema_name() -> (Seq<char>, Seq<char>);

    /// The name of the schema; the error holds the first of the two parts
    /// that is no name.
    fn schema_name() -> (r: Result<SchemaName, InvalidNameError>)
        ensures
            match r {
                Ok(n) => n@ == Self::spec_schema_name() && valid_name(n@.0) && valid_name(n@.1),
                Err(e) => if valid_name(Self::spec_schema_name().0) {
                    !valid_name(Self::spec_schema_name().1) && e.0@
                        == Self::spec_schema_name().1
                } else {
                    e.0@ == Self::spec_schema_name().0
                },
            },
    ;

    /// What the definition of the collections of the schema and of their
    /// views makes of a schema.
    spec fn spec_define_collections(schema: SchematicView) -> Defined;

    /// Defines the collections of the schema and their views.
    fn define_collections(schema: &mut Schematic) -> (r: Result<(), Error>)
        requires
            old(schema).wf(),
        ensures
            final(schema).wf(),
            outcome(final(schema)@, r) == Self::spec_define_collections(old(schema)@),
    ;

    /// The map function of the view `view`.
    fn map(view: &ViewName, document: &OwnedDocument) -> (r: Result<Vec<Mapping>, Error>)
        ensures
            map_result_view(r) == Self::spec_map(view@, document@),
    ;

    /// The reduce function of the view `view`.
    fn reduce(view: &ViewName, values: &Vec<Vec<u8>>) -> (r: Result<Vec<u8>, Error>)
        ensures
            reduce_result_view(r) == Self::spec_reduce(view@, values_view(*values)),
    ;
}

} // verus!
