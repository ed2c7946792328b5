//! The value model of T3D documents and the rules that fold an object
//! block's statements into a `T3dObject`.
use vstd::prelude::*;

verus! {

/// Relies on `String::push`: the character is appended at the end.
#[verifier::external_body]
pub(crate) fn push_char(s: &mut String, c: char)
    ensures
        final(s)@ == old(s)@.push(c),
{
    s.push(c)
}

/// A typed pointer-by-path literal, written `Type'Path'`.
#[derive(Debug, Clone)]
pub struct T3dReference {
    pub type_: String,
    pub path: String,
}

/// The text of a reference: `Type'Path'`.
pub open spec fn reference_text(type_: Seq<char>, path: Seq<char>) -> Seq<char> {
    type_ + seq!['\''] + path + seq!['\'']
}

impl T3dReference {
    pub fn to_string(&self) -> (r: String)
        ensures
            r@ == reference_text(self.type_@, self.path@),
    {
        let mut out = self.type_.clone();
        push_char(&mut out, '\'');
        let out = out.concat(self.path.as_str());
        let mut out = out;
        push_char(&mut out, '\'');
        out
    }
}

/// A real number, kept as the decimal text it was written as
/// (an optional sign, digits, an optional fraction and exponent).
#[derive(Debug, Clone)]
pub struct T3dFloat {
    pub text: String,
}

/// Three unlabelled components, as in `Vertex x,y,z`.
#[derive(Debug, Clone)]
pub struct T3dVector {
    pub x: T3dFloat,
    pub y: T3dFloat,
    pub z: T3dFloat,
}

/// A literal or composite property value.
#[derive(Debug)]
pub enum T3dValue {
    Int(i32),
    Float(T3dFloat),
    Bool(bool),
    String(String),
    /// Inline `(Name=Value,...)` group; a later entry of the same name replaces an earlier one.
    Struct(Vec<(String, T3dValue)>),
    Reference(T3dReference),
    Identifier(String),
    Vector(T3dVector),
    Array(Vec<Option<T3dValue>>),
}

impl View for T3dValue {
    type V = T3dValue;

    open spec fn view(&self) -> T3dValue {
        *self
    }
}

pub open spec fn digit_char(d: int) -> char {
    if d == 0 {
        '0'
    } else if d == 1 {
        '1'
    } else if d == 2 {
        '2'
    } else if d == 3 {
        '3'
    } else if d == 4 {
        '4'
    } else if d == 5 {
        '5'
    } else if d == 6 {
        '6'
    } else if d == 7 {
        '7'
    } else if d == 8 {
        '8'
    } else {
        '9'
    }
}

/// The decimal digits of a natural number, without leading zeros.
pub open spec fn nat_text(n: nat) -> Seq<char>
    decreases n,
{
    if n < 10 {
        seq![digit_char(n as int)]
    } else {
        nat_text(n / 10).push(digit_char((n % 10) as int))
    }
}

/// The decimal text of an integer: a `-` before negative numbers.
pub open spec fn int_text(n: int) -> Seq<char> {
    if n < 0 {
        seq!['-'] + nat_text((-n) as nat)
    } else {
        nat_text(n as nat)
    }
}

fn digit_char_exec(d: u32) -> (c: char)
    requires
        d < 10,
    ensures
        c == digit_char(d as int),
{
    if d == 0 {
        '0'
    } else if d == 1 {
        '1'
    } else if d == 2 {
        '2'
    } else if d == 3 {
        '3'
    } else if d == 4 {
        '4'
    } else if d == 5 {
        '5'
    } else if d == 6 {
        '6'
    } else if d == 7 {
        '7'
    } else if d == 8 {
        '8'
    } else {
        '9'
    }
}

fn push_nat_text(out: &mut String, n: u32)
    ensures
        final(out)@ == old(out)@ + nat_text(n as nat),
    decreases n,
{
    if n < 10 {
        push_char(out, digit_char_exec(n));
    } else {
        push_nat_text(out, n / 10);
        push_char(out, digit_char_exec(n % 10));
    }
}

pub fn int_to_string(n: i32) -> (r: String)
    ensures
        r@ == int_text(n as int),
{
    let mut out = String::new();
    if n < 0 {
        push_char(&mut out, '-');
        let m = (-(n as i64)) as u32;
        push_nat_text(&mut out, m);
    } else {
        push_nat_text(&mut out, n as u32);
    }
    out
}

/// The rendering of a vector: `(x, y, z)`.
pub open spec fn vector_text(v: T3dVector) -> Seq<char> {
    seq!['('] + v.x.text@ + seq![',', ' '] + v.y.text@ + seq![',', ' '] + v.z.text@ + seq![')']
}

/// The diagnostic rendering of a value: numbers, booleans, identifiers and
/// references as written, strings in quotes, structs and arrays as placeholders.
pub open spec fn value_text(v: T3dValue) -> Seq<char> {
    match v {
        T3dValue::Int(n) => int_text(n as int),
        T3dValue::Float(f) => f.text@,
        T3dValue::Bool(b) => if b {
            seq!['t', 'r', 'u', 'e']
        } else {
            seq!['f', 'a', 'l', 's', 'e']
        },
        T3dValue::String(s) => seq!['"'] + s@ + seq!['"'],
        T3dValue::Struct(_) => seq!['S', 't', 'r', 'u', 'c', 't', '(', ')'],
        T3dValue::Reference(r) => reference_text(r.type_@, r.path@),
        T3dValue::Identifier(s) => s@,
        T3dValue::Vector(v) => vector_text(v),
        T3dValue::Array(_) => seq!['A', 'r', 'r', 'a', 'y', '(', ')'],
    }
}

/// Appends each character of `cs`.
fn push_chars(out: &mut String, cs: &[char])
    ensures
        final(out)@ == old(out)@ + cs@,
{
    let mut k: usize = 0;
    while k < cs.len()
        invariant
            k <= cs@.len(),
            out@ == old(out)@ + cs@.subrange(0, k as int),
        decreases cs@.len() - k,
    {
        assert(cs@.subrange(0, k + 1) == cs@.subrange(0, k as int).push(cs@[k as int]));
        push_char(out, cs[k]);
        k = k + 1;
    }
    assert(cs@.subrange(0, k as int) == cs@);
}

impl T3dValue {
    pub fn to_string(&self) -> (r: String)
        ensures
            r@ == value_text(*self),
    {
        let mut out = String::new();
        match self {
            T3dValue::Int(n) => {
                out = int_to_string(*n);
            },
            T3dValue::Float(f) => {
                out = f.text.clone();
            },
            T3dValue::Bool(b) => {
                if *b {
                    push_chars(&mut out, &['t', 'r', 'u', 'e']);
                } else {
                    push_chars(&mut out, &['f', 'a', 'l', 's', 'e']);
                }
            },
            T3dValue::String(s) => {
                push_char(&mut out, '"');
                out = out.concat(s.as_str());
                push_char(&mut out, '"');
            },
            T3dValue::Struct(_) => {
                push_chars(&mut out, &['S', 't', 'r', 'u', 'c', 't', '(', ')']);
            },
            T3dValue::Reference(r) => {
                out = r.to_string();
            },
            T3dValue::Identifier(s) => {
                out = s.clone();
            },
            T3dValue::Vector(v) => {
                push_char(&mut out, '(');
                out = out.concat(v.x.text.as_str());
                push_chars(&mut out, &[',', ' ']);
                out = out.concat(v.y.text.as_str());
                push_chars(&mut out, &[',', ' ']);
                out = out.concat(v.z.text.as_str());
                push_char(&mut out, ')');
            },
            T3dValue::Array(_) => {
                push_chars(&mut out, &['A', 'r', 'r', 'a', 'y', '(', ')']);
            },
        }
        out
    }
}

/// The mapping that a list of named entries stands for: where a name
/// occurs more than once, its first entry counts.
pub open spec fn entries_map<V: View>(v: Seq<(String, V)>) -> Map<Seq<char>, V::V>
    decreases v.len(),
{
    if v.len() == 0 {
        Map::empty()
    } else {
        let m = entries_map(v.drop_last());
        if m.contains_key(v.last().0@) {
            m
        } else {
            m.insert(v.last().0@, v.last().1@)
        }
    }
}

/// `i` is the first entry named `k`.
pub open spec fn first_entry<V>(v: Seq<(String, V)>, i: int, k: Seq<char>) -> bool {
    &&& 0 <= i < v.len()
    &&& v[i].0@ == k
    &&& forall|j: int| 0 <= j < i ==> (#[trigger] v[j]).0@ != k
}

pub proof fn lemma_entries_map_contains<V: View>(v: Seq<(String, V)>, k: Seq<char>)
    ensures
        entries_map(v).contains_key(k) <==> exists|i: int| 0 <= i < v.len() && (#[trigger] v[i]).0@ == k,
    decreases v.len(),
{
    if v.len() > 0 {
        let p = v.drop_last();
        lemma_entries_map_contains(p, k);
        if entries_map(p).contains_key(k) {
            let i = choose|i: int| 0 <= i < p.len() && (#[trigger] p[i]).0@ == k;
            assert(v[i] == p[i]);
        }
        if exists|i: int| 0 <= i < v.len() && (#[trigger] v[i]).0@ == k {
            let i = choose|i: int| 0 <= i < v.len() && (#[trigger] v[i]).0@ == k;
            if i < p.len() {
                assert(p[i] == v[i]);
            }
        }
    }
}

pub proof fn lemma_entries_map_first<V: View>(v: Seq<(String, V)>, i: int, k: Seq<char>)
    requires
        first_entry(v, i, k),
    ensures
        entries_map(v).contains_key(k),
        entries_map(v)[k] == v[i].1@,
    decreases v.len(),
{
    let p = v.drop_last();
    if i < p.len() {
        assert(p[i] == v[i]);
        assert forall|j: int| 0 <= j < i implies (#[trigger] p[j]).0@ != k by {
            assert(p[j] == v[j]);
        }
        lemma_entries_map_first(p, i, k);
    } else {
        lemma_entries_map_contains(p, k);
        assert forall|j: int| 0 <= j < p.len() implies (#[trigger] p[j]).0@ != k by {
            assert(p[j] == v[j]);
        }
    }
}

/// Replacing the first entry named `k` by another of that name replaces what `k` maps to.
pub proof fn lemma_entries_map_update<V: View>(v: Seq<(String, V)>, i: int, e: (String, V))
    requires
        first_entry(v, i, e.0@),
    ensures
        entries_map(v.update(i, e)) == entries_map(v).insert(e.0@, e.1@),
    decreases v.len(),
{
    let w = v.update(i, e);
    let p = v.drop_last();
    if i < v.len() - 1 {
        assert(w.drop_last() == p.update(i, e));
        assert forall|j: int| 0 <= j < i implies (#[trigger] p[j]).0@ != e.0@ by {
            assert(p[j] == v[j]);
        }
        lemma_entries_map_update(p, i, e);
        assert(p[i] == v[i]);
        lemma_entries_map_first(p, i, e.0@);
        assert(w.last() == v.last());
        if v.last().0@ == e.0@ {
            assert(entries_map(w) =~= entries_map(v).insert(e.0@, e.1@));
        } else {
            assert(entries_map(w) =~= entries_map(v).insert(e.0@, e.1@));
        }
    } else {
        assert(w.drop_last() == p);
        lemma_entries_map_contains(p, e.0@);
        assert forall|j: int| 0 <= j < p.len() implies (#[trigger] p[j]).0@ != e.0@ by {
            assert(p[j] == v[j]);
        }
        assert(entries_map(w) =~= entries_map(v).insert(e.0@, e.1@));
    }
}

/// Appending an entry under a new name adds it to the mapping.
pub proof fn lemma_entries_map_push<V: View>(v: Seq<(String, V)>, e: (String, V))
    requires
        !entries_map(v).contains_key(e.0@),
    ensures
        entries_map(v.push(e)) == entries_map(v).insert(e.0@, e.1@),
{
    assert(v.push(e).drop_last() == v);
}

/// Finds the first entry named `key`.
pub fn find_entry<V: View>(v: &Vec<(String, V)>, key: &String) -> (r: Option<usize>)
    ensures
        r matches Some(i) ==> first_entry(v@, i as int, key@),
        r is None ==> forall|j: int| 0 <= j < v@.len() ==> (#[trigger] v@[j]).0@ != key@,
{
    let mut i: usize = 0;
    while i < v.len()
        invariant
            i <= v@.len(),
            forall|j: int| 0 <= j < i ==> (#[trigger] v@[j]).0@ != key@,
        decreases v@.len() - i,
    {
        if v[i].0 == *key {
            return Some(i);
        }
        i = i + 1;
    }
    None
}

/// Sets `key` to `value` in a struct's entries: a new name is appended, an
/// existing one has its value replaced.
pub fn struct_insert(entries: &mut Vec<(String, T3dValue)>, key: String, value: T3dValue)
    ensures
        entries_map(final(entries)@) == entries_map(old(entries)@).insert(key@, value),
        final(entries)@.len() > 0,
        names_unique(old(entries)@) ==> names_unique(final(entries)@),
        names_unique(old(entries)@) ==> forall|k: int|
            0 <= k < final(entries)@.len() ==> (#[trigger] final(entries)@[k]).0@ == key@
                && final(entries)@[k].1 == value || exists|j: int|
                0 <= j < old(entries)@.len() && old(entries)@[j] == final(entries)@[k]
                    && final(entries)@[k].0@ != key@,
{
    proof {
        lemma_entries_map_contains(entries@, key@);
    }
    match find_entry(entries, &key) {
        Some(i) => {
            let ghost before = entries@;
            let _ = entries.remove(i);
            entries.insert(i, (key, value));
            proof {
                assert(entries@ == before.update(i as int, entries@[i as int]));
                lemma_entries_map_update(before, i as int, entries@[i as int]);
                if names_unique(before) {
                    assert forall|k: int|
                        0 <= k < entries@.len() implies (#[trigger] entries@[k]).0@ == key@
                            && entries@[k].1 == value || exists|j: int|
                            0 <= j < before.len() && before[j] == entries@[k] && entries@[k].0@
                                != key@ by {
                        if k != i {
                            assert(before[k] == entries@[k]);
                            if k < i {
                                assert(before[k].0@ != before[i as int].0@);
                            } else {
                                assert(before[i as int].0@ != before[k].0@);
                            }
                        }
                    }
                    assert forall|x: int, y: int|
                        0 <= x < y < entries@.len() implies (#[trigger] entries@[x]).0@
                            != (#[trigger] entries@[y]).0@ by {
                        assert(before[x].0@ == entries@[x].0@);
                        assert(before[y].0@ == entries@[y].0@);
                    }
                }
            }
        },
        None => {
            let ghost before = entries@;
            entries.push((key, value));
            proof {
                lemma_entries_map_push(before, entries@.last());
                assert(before.push(entries@.last()) == entries@);
                assert forall|k: int|
                    0 <= k < entries@.len() implies (#[trigger] entries@[k]).0@ == key@
                        && entries@[k].1 == value || exists|j: int|
                        0 <= j < before.len() && before[j] == entries@[k] && entries@[k].0@
                            != key@ by {
                    if k < before.len() {
                        assert(before[k] == entries@[k]);
                    }
                }
            }
        },
    }
}

/// What a property holds: one value, or the `(index, value)` assignments
/// made to an indexed array property, in the order they were made.
#[derive(Debug)]
pub enum T3dPropertyValue {
    Value(T3dValue),
    Array(Vec<(Option<i32>, T3dValue)>),
}

/// The mathematical reading of a `T3dPropertyValue`.
pub enum PropertyModel {
    Value(T3dValue),
    Array(Seq<(Option<i32>, T3dValue)>),
}

impl View for T3dPropertyValue {
    type V = PropertyModel;

    open spec fn view(&self) -> PropertyModel {
        match self {
            T3dPropertyValue::Value(v) => PropertyModel::Value(*v),
            T3dPropertyValue::Array(a) => PropertyModel::Array(a@),
        }
    }
}

/// `Name=Value` or `Name[Index]=Value`.
#[derive(Debug)]
pub struct T3dPropertyAssignment {
    pub name: String,
    pub index: Option<i32>,
    pub value: T3dValue,
}

/// `Name x,y,z`.
#[derive(Debug)]
pub struct T3dPropertyAssignmentVector {
    pub name: String,
    pub value: T3dVector,
}

/// One statement of an object block.
#[derive(Debug)]
pub enum T3dObjectStatement {
    Object(T3dObject),
    PropertyAssignment(T3dPropertyAssignment),
    PropertyAssignmentVector(T3dPropertyAssignmentVector),
}

/// A `Begin Type ... End Type` block.
#[derive(Debug)]
pub struct T3dObject {
    pub type_: String,
    /// Nested blocks, in source order.
    pub children: Vec<Box<T3dObject>>,
    /// Each property name once, with what was assigned to it.
    pub properties: Vec<(String, T3dPropertyValue)>,
    /// Vector statements, in source order; a name may repeat.
    pub vector_properties: Vec<(String, T3dVector)>,
}

/// Returned where an object has no property of the name asked for.
#[derive(Debug, Clone, Copy, PartialEq, Eq)]
pub struct T3dPropertyNotFound;

/// The property map after the assignment `name[index]=value`: a new name
/// becomes a scalar (no index) or a one-element array (an index); an array
/// gets the assignment appended; a scalar keeps its first value.
pub open spec fn assign_property(
    m: Map<Seq<char>, PropertyModel>,
    name: Seq<char>,
    index: Option<i32>,
    value: T3dValue,
) -> Map<Seq<char>, PropertyModel> {
    if m.contains_key(name) {
        match m[name] {
            PropertyModel::Array(a) => m.insert(name, PropertyModel::Array(a.push((index, value)))),
            PropertyModel::Value(_) => m,
        }
    } else if index is Some {
        m.insert(name, PropertyModel::Array(seq![(index, value)]))
    } else {
        m.insert(name, PropertyModel::Value(value))
    }
}

/// A name first assigned without an index keeps that value: any later
/// assignment to it, with or without an index, leaves the map unchanged.
pub proof fn lemma_scalar_keeps_first_value(
    m: Map<Seq<char>, PropertyModel>,
    name: Seq<char>,
    first: T3dValue,
    index: Option<i32>,
    second: T3dValue,
)
    requires
        !m.contains_key(name),
    ensures
        assign_property(assign_property(m, name, None, first), name, index, second)
            == assign_property(m, name, None, first),
        assign_property(m, name, None, first)[name] == PropertyModel::Value(first),
{
}

/// Assignments to a name first assigned with an index are all kept, in
/// order, with their indices (an absent one recorded as absent).
pub proof fn lemma_indexed_assignments_accumulate(
    m: Map<Seq<char>, PropertyModel>,
    name: Seq<char>,
    i: i32,
    first: T3dValue,
    index: Option<i32>,
    second: T3dValue,
)
    requires
        !m.contains_key(name),
    ensures
        assign_property(assign_property(m, name, Some(i), first), name, index, second)[name]
            == PropertyModel::Array(seq![(Some(i), first), (index, second)]),
{
    assert(seq![(Some(i), first)].push((index, second)) =~= seq![(Some(i), first), (index, second)]);
}

/// Which properties are arrays.
pub open spec fn property_kinds(m: Map<Seq<char>, PropertyModel>) -> Map<Seq<char>, bool> {
    m.map_values(|v: PropertyModel| v is Array)
}

/// An assignment adds its name to the kinds, as an array where it carries
/// an index, unless the name is there already.
pub proof fn lemma_assign_kinds(
    m: Map<Seq<char>, PropertyModel>,
    name: Seq<char>,
    index: Option<i32>,
    value: T3dValue,
)
    ensures
        property_kinds(assign_property(m, name, index, value)) == if m.contains_key(name) {
            property_kinds(m)
        } else {
            property_kinds(m).insert(name, index is Some)
        },
{
    let r = assign_property(m, name, index, value);
    if m.contains_key(name) {
        assert(property_kinds(r) =~= property_kinds(m));
    } else {
        assert(property_kinds(r) =~= property_kinds(m).insert(name, index is Some));
    }
}

/// Entries whose names are pairwise distinct.
pub open spec fn names_unique<V>(v: Seq<(String, V)>) -> bool {
    forall|i: int, j: int| 0 <= i < j < v.len() ==> (#[trigger] v[i]).0@ != (#[trigger] v[j]).0@
}

impl T3dObject {
    /// The property map, by name.
    pub open spec fn property_map(&self) -> Map<Seq<char>, PropertyModel> {
        entries_map(self.properties@)
    }

    /// An empty block of the given type.
    pub fn new(type_: String) -> (r: T3dObject)
        ensures
            r.type_ == type_,
            r.children@.len() == 0,
            r.properties@.len() == 0,
            r.vector_properties@.len() == 0,
            r.property_map() == Map::<Seq<char>, PropertyModel>::empty(),
    {
        T3dObject {
            type_,
            children: Vec::new(),
            properties: Vec::new(),
            vector_properties: Vec::new(),
        }
    }

    /// Applies a property assignment to the property map.
    pub fn assign(&mut self, p: T3dPropertyAssignment)
        ensures
            final(self).property_map() == assign_property(
                old(self).property_map(),
                p.name@,
                p.index,
                p.value,
            ),
            names_unique(old(self).properties@) ==> names_unique(final(self).properties@),
            final(self).type_ == old(self).type_,
            final(self).children == old(self).children,
            final(self).vector_properties == old(self).vector_properties,
    {
        let ghost before = self.properties@;
        proof {
            lemma_entries_map_contains(before, p.name@);
        }
        match find_entry(&self.properties, &p.name) {
            Some(i) => {
                proof {
                    lemma_entries_map_first(before, i as int, p.name@);
                }
                let is_array = match &self.properties[i].1 {
                    T3dPropertyValue::Array(_) => true,
                    T3dPropertyValue::Value(_) => false,
                };
                if is_array {
                    let (name, old_value) = self.properties.remove(i);
                    match old_value {
                        T3dPropertyValue::Array(mut a) => {
                            a.push((p.index, p.value));
                            self.properties.insert(i, (name, T3dPropertyValue::Array(a)));
                            proof {
                                let e = self.properties@[i as int];
                                assert(self.properties@ == before.update(i as int, e));
                                lemma_entries_map_update(before, i as int, e);
                                assert forall|x: int, y: int|
                                    0 <= x < y < self.properties@.len()
                                        && names_unique(before) implies (#[trigger] self.properties@[x]).0@
                                    != (#[trigger] self.properties@[y]).0@ by {
                                    assert(before[x].0@ == self.properties@[x].0@);
                                    assert(before[y].0@ == self.properties@[y].0@);
                                }
                            }
                        },
                        T3dPropertyValue::Value(v) => {
                            self.properties.insert(i, (name, T3dPropertyValue::Value(v)));
                        },
                    }
                }
            },
            None => {
                let value = match p.index {
                    Some(_) => T3dPropertyValue::Array(vec![(p.index, p.value)]),
                    None => T3dPropertyValue::Value(p.value),
                };
                self.properties.push((p.name, value));
                proof {
                    let e = self.properties@.last();
                    assert(before.push(e) == self.properties@);
                    lemma_entries_map_push(before, e);
                    if let PropertyModel::Array(a) = e.1@ {
                        assert(a == seq![(p.index, p.value)]);
                    }
                }
            },
        }
    }

    /// Folds one statement of the block into the object: a nested block is
    /// appended to the children, a vector statement to the vector
    /// properties, and a property assignment goes through `assign_property`.
    pub fn add_statement(&mut self, statement: T3dObjectStatement)
        ensures
            final(self).type_ == old(self).type_,
            names_unique(old(self).properties@) ==> names_unique(final(self).properties@),
            match statement {
                T3dObjectStatement::Object(o) => {
                    &&& final(self).children@ == old(self).children@.push(Box::new(o))
                    &&& final(self).properties == old(self).properties
                    &&& final(self).vector_properties == old(self).vector_properties
                },
                T3dObjectStatement::PropertyAssignment(p) => {
                    &&& final(self).children == old(self).children
                    &&& final(self).property_map() == assign_property(
                        old(self).property_map(),
                        p.name@,
                        p.index,
                        p.value,
                    )
                    &&& final(self).vector_properties == old(self).vector_properties
                },
                T3dObjectStatement::PropertyAssignmentVector(p) => {
                    &&& final(self).children == old(self).children
                    &&& final(self).properties == old(self).properties
                    &&& final(self).vector_properties@ == old(self).vector_properties@.push(
                        (p.name, p.value),
                    )
                },
            },
    {
        match statement {
            T3dObjectStatement::Object(o) => {
                self.children.push(Box::new(o));
            },
            T3dObjectStatement::PropertyAssignment(p) => {
                self.assign(p);
            },
            T3dObjectStatement::PropertyAssignmentVector(p) => {
                self.vector_properties.push((p.name, p.value));
            },
        }
    }

    /// Looks a property up by exact name; vector properties are not reached.
    pub fn get(&self, key: &String) -> (r: Result<&T3dPropertyValue, T3dPropertyNotFound>)
        ensures
            r is Err <==> !self.property_map().contains_key(key@),
            r matches Ok(v) ==> self.property_map()[key@] == v@,
    {
        proof {
            lemma_entries_map_contains(self.properties@, key@);
        }
        match find_entry(&self.properties, key) {
            Some(i) => {
                proof {
                    lemma_entries_map_first(self.properties@, i as int, key@);
                }
                Ok(&self.properties[i].1)
            },
            None => Err(T3dPropertyNotFound),
        }
    }
}

} // verus!
