//! The T3D grammar as a recursive-descent parser over the characters of a
//! document. Between statements any whitespace may stand; within one
//! statement only spaces and tabs, so that `Name=` at the end of a line is an
//! empty value.
use vstd::prelude::*;
use vstd::std_specs::iter::IteratorSpec;
use crate::ast::{
    PropertyModel, property_kinds, lemma_assign_kinds, assign_property, push_char, struct_insert, T3dFloat, T3dObject, T3dObjectStatement, T3dPropertyAssignment,
    T3dPropertyAssignmentVector, T3dReference, T3dValue, T3dVector, names_unique, entries_map,
};
use crate::grammar::{
    value_end, group_end, items_end, entries_end, assignment_end, vector_end, object_end,
    statements_end, blocks_from, is_document, opens_struct, index_value, value_start, no_value_at, number_token, second_start, third_start,
    number_text, block_type, block_vectors, block_children, block_properties, block_first_starts, block_types_from, block_starts_from, failure_from, item_starts, block_assignments, child_starts, entry_starts, last_named, object_fail, statements_fail, value_err, group_err, items_err, entries_err,
    assignment_err, vector_err, object_err, statements_err, blocks_err, run,
    VectorText,
};
use crate::lexer::{
    char_in_class, is_ident_start_exec, read_int, scan, scan_number, span_end, lemma_span_end_bounds,
    number_end, has_number, number_is_int, int_value, is_ident_start, lemma_span_end_nonempty, is_digit,
    CharClass,
};

verus! {

/// What the parser looked for where it stopped.
#[derive(Debug, Clone, Copy, PartialEq, Eq)]
pub enum T3dExpected {
    /// `Begin` and a type name.
    Begin,
    /// A name.
    Identifier,
    /// `End` followed by the type name the block began with.
    EndName,
    /// A nested block, a property assignment, a vector statement or `End`.
    Statement,
    /// `=` after a property name.
    Equals,
    /// An integer index after `[`.
    Index,
    /// `]` after an index.
    CloseBracket,
    /// A value.
    Value,
    /// `,` or `)` inside parentheses.
    CloseParen,
    /// The closing quote of a string or a reference path.
    ClosingQuote,
    /// `,` between the components of a vector.
    Comma,
    /// A number.
    Number,
    /// An integer that fits in 32 bits.
    IntRange,
}

/// Where and why a document failed to parse. `position` counts characters
/// from the start; `line` and `column` count from 1.
#[derive(Debug, Clone, Copy, PartialEq, Eq)]
pub struct T3dSyntaxError {
    pub position: usize,
    pub line: usize,
    pub column: usize,
    pub expected: T3dExpected,
}

/// A failure inside the parser: the position and what was expected there.
pub type Fault = (usize, T3dExpected);

/// The characters from `a` to `b`, as a `String`.
pub fn text_of(s: &Vec<char>, a: usize, b: usize) -> (r: String)
    requires
        a <= b <= s@.len(),
    ensures
        r@ == s@.subrange(a as int, b as int),
{
    let mut out = String::new();
    let mut k = a;
    while k < b
        invariant
            a <= k <= b,
            b <= s@.len(),
            out@ == s@.subrange(a as int, k as int),
        decreases b - k,
    {
        assert(s@.subrange(a as int, k + 1) == s@.subrange(a as int, k as int).push(s@[k as int]));
        push_char(&mut out, s[k]);
        k = k + 1;
    }
    out
}

/// `w` is `lower` with any of its letters in upper case (`upper`).
pub open spec fn word_is(w: Seq<char>, lower: Seq<char>, upper: Seq<char>) -> bool {
    &&& w.len() == lower.len()
    &&& forall|k: int| 0 <= k < w.len() ==> #[trigger] w[k] == lower[k] || w[k] == upper[k]
}

pub open spec fn is_true_word(w: Seq<char>) -> bool {
    word_is(w, seq!['t', 'r', 'u', 'e'], seq!['T', 'R', 'U', 'E'])
}

pub open spec fn is_false_word(w: Seq<char>) -> bool {
    word_is(w, seq!['f', 'a', 'l', 's', 'e'], seq!['F', 'A', 'L', 'S', 'E'])
}

fn span_is(s: &Vec<char>, a: usize, b: usize, lower: &[char], upper: &[char]) -> (r: bool)
    requires
        a <= b <= s@.len(),
        lower@.len() == upper@.len(),
    ensures
        r == word_is(s@.subrange(a as int, b as int), lower@, upper@),
{
    if b - a != lower.len() {
        return false;
    }
    let mut k: usize = 0;
    while k < lower.len()
        invariant
            k <= lower@.len(),
            lower@.len() == upper@.len(),
            b - a == lower@.len(),
            a <= b <= s@.len(),
            forall|m: int| 0 <= m < k ==> #[trigger] s@[a + m] == lower@[m] || s@[a + m] == upper@[m],
        decreases lower@.len() - k,
    {
        if s[a + k] != lower[k] && s[a + k] != upper[k] {
            assert(s@.subrange(a as int, b as int)[k as int] == s@[a + k]);
            return false;
        }
        k = k + 1;
    }
    assert forall|m: int| 0 <= m < lower@.len() implies #[trigger] s@.subrange(a as int, b as int)[m]
        == lower@[m] || s@.subrange(a as int, b as int)[m] == upper@[m] by {
        assert(s@.subrange(a as int, b as int)[m] == s@[a + m]);
    }
    true
}

/// At `i` stands a bare word: not a number token, and not the type of a reference.
pub open spec fn bare_word_at(s: Seq<char>, i: int) -> bool {
    let k = span_end(s, i, CharClass::Ident);
    &&& !number_token(s, i)
    &&& is_digit(s[i]) || (is_ident_start(s[i]) && !(k < s.len() && s[k] == '\''))
}

/// `v` is the value read from `i` to `j`: the first character and the
/// token decide the variant, and the token its contents; a parenthesised
/// group is a struct where it opens with `Name=` or `Name[`, else an array.
pub open spec fn value_token(s: Seq<char>, i: int, j: int, v: T3dValue) -> bool {
    match v {
        T3dValue::Int(n) => {
            &&& number_token(s, i)
            &&& number_is_int(s, i)
            &&& j == number_end(s, i)
            &&& n as int == int_value(s, i, j)
        },
        T3dValue::Float(f) => {
            &&& number_token(s, i)
            &&& !number_is_int(s, i)
            &&& j == number_end(s, i)
            &&& f.text@ == s.subrange(i, j)
        },
        T3dValue::String(t) => {
            &&& s[i] == '"'
            &&& j - 1 == span_end(s, i + 1, CharClass::NotDoubleQuote)
            &&& s[j - 1] == '"'
            &&& t@ == s.subrange(i + 1, j - 1)
        },
        T3dValue::Reference(r) => {
            let k = span_end(s, i, CharClass::Ident);
            &&& is_ident_start(s[i])
            &&& s[k] == '\''
            &&& j - 1 == span_end(s, k + 1, CharClass::NotQuote)
            &&& s[j - 1] == '\''
            &&& r.type_@ == s.subrange(i, k)
            &&& r.path@ == s.subrange(k + 1, j - 1)
        },
        T3dValue::Identifier(w) => {
            &&& bare_word_at(s, i)
            &&& j == span_end(s, i, CharClass::Word)
            &&& w@ == s.subrange(i, j)
            &&& !is_true_word(w@)
            &&& !is_false_word(w@)
        },
        T3dValue::Bool(b) => {
            &&& bare_word_at(s, i)
            &&& j == span_end(s, i, CharClass::Word)
            &&& if b {
                is_true_word(s.subrange(i, j))
            } else {
                is_false_word(s.subrange(i, j))
            }
        },
        T3dValue::Struct(_) => s[i] == '(' && opens_struct(s, i) && s[j - 1] == ')',
        T3dValue::Array(_) => s[i] == '(' && !opens_struct(s, i) && s[j - 1] == ')',
        T3dValue::Vector(_) => false,
    }
}

/// `entries` hold exactly the names assigned at `starts`.
pub open spec fn entries_named(s: Seq<char>, starts: Seq<int>, entries: Seq<(String, T3dValue)>) -> bool {
    forall|n: Seq<char>|
        #[trigger] last_named(s, starts, n) is Some <==> entries_map(entries).contains_key(n)
}

/// `v` is the value read from `i`, at every depth: its token; for an array,
/// one item for each item position, each the value read there; for a
/// struct, one entry for each name assigned, each with the value of the
/// last assignment to that name.
pub open spec fn value_tree(s: Seq<char>, i: int, v: T3dValue) -> bool
    decreases v,
{
    &&& value_token(s, i, value_end(s, i)->0, v)
    &&& match v {
        T3dValue::Array(items) => items@.len() == item_starts(s, i + 1).len() && forall|k: int|
            #![trigger items@[k]]
            0 <= k < items@.len() ==> match items@[k] {
                Some(x) => value_tree(s, item_starts(s, i + 1)[k], x),
                None => false,
            },
        T3dValue::Struct(entries) => names_unique(entries@) && entries_named(
            s,
            entry_starts(s, i + 1),
            entries@,
        ) && forall|k: int|
            #![trigger entries@[k]]
            0 <= k < entries@.len() ==> match last_named(s, entry_starts(s, i + 1), entries@[k].0@) {
                Some(q) => if no_value_at(s, value_start(s, q)) {
                    entries@[k].1 matches T3dValue::String(t) && t@.len() == 0
                } else {
                    value_tree(s, value_start(s, q), entries@[k].1)
                },
                None => false,
            },
        _ => true,
    }
}

/// Each of `entries` holds the value, at every depth, of the last
/// assignment to its name among those at `starts`.
pub open spec fn entries_tree(s: Seq<char>, starts: Seq<int>, entries: Seq<(String, T3dValue)>) -> bool {
    &&& names_unique(entries)
    &&& forall|k: int|
        #![trigger entries[k]]
        0 <= k < entries.len() ==> match last_named(s, starts, entries[k].0@) {
            Some(q) => if no_value_at(s, value_start(s, q)) {
                entries[k].1 matches T3dValue::String(t) && t@.len() == 0
            } else {
                value_tree(s, value_start(s, q), entries[k].1)
            },
            None => false,
        }
}

/// `v` is the value of the assignment at `i`, which ends at `j`: the empty
/// string where nothing follows `=` on its line, else the value read there.
pub open spec fn assigned_value(s: Seq<char>, i: int, j: int, v: T3dValue) -> bool {
    let v0 = value_start(s, i);
    if no_value_at(s, v0) {
        j == v0 && (v matches T3dValue::String(t) && t@.len() == 0)
    } else {
        value_token(s, v0, j, v) && value_tree(s, v0, v)
    }
}

/// A vector property as text: its name and its three numbers as written.
pub open spec fn vector_parts(e: (String, T3dVector)) -> VectorText {
    (e.0@, e.1.x.text@, e.1.y.text@, e.1.z.text@)
}

/// `o` is what the block from `i` to `j` reads as: its type; its property
/// names, each an array exactly where its first assignment has an index;
/// each scalar's value, read by the first assignment to its name; each
/// array's `(index, value)` list, from all assignments to its name; its
/// vector statements and the types of its nested blocks, in source order.
/// It closes with `End` and its type.
pub open spec fn block_read(s: Seq<char>, i: int, o: T3dObject, j: int) -> bool {
    let k = span_end(s, i, CharClass::Ident);
    let p = run(s, span_end(s, k, CharClass::Space), CharClass::Ident);
    &&& i < j <= s.len()
    &&& s.subrange(i, k) == "Begin"@
    &&& o.type_@ == block_type(s, i)
    &&& exists|c: int| i < c < j && #[trigger] s.subrange(c, j) == o.type_@
    &&& names_unique(o.properties@)
    &&& property_kinds(o.property_map()) == block_properties(s, p, o.type_@)
    &&& forall|n: Seq<char>| #[trigger]
        o.property_map().contains_key(n) ==> (o.property_map()[n] matches PropertyModel::Value(v)
            ==> assigned_value(
            s,
            block_first_starts(s, p, o.type_@)[n],
            assignment_end(s, block_first_starts(s, p, o.type_@)[n])->0,
            v,
        ))
    &&& forall|n: Seq<char>| #[trigger]
        o.property_map().contains_key(n) ==> (o.property_map()[n] matches PropertyModel::Array(list)
            ==> assignments_read(s, block_assignments(s, p, o.type_@, n), list))
    &&& o.vector_properties@.map_values(|e: (String, T3dVector)| vector_parts(e))
        == block_vectors(s, p, o.type_@)
    &&& o.children@.map_values(|c: Box<T3dObject>| c.type_@) == block_children(s, p, o.type_@)
}

/// `list` holds the `(index, value)` of the assignments that start at
/// `starts`, in order.
pub open spec fn assignments_read(
    s: Seq<char>,
    starts: Seq<int>,
    list: Seq<(Option<i32>, T3dValue)>,
) -> bool {
    &&& list.len() == starts.len()
    &&& forall|k: int|
        0 <= k < list.len() ==> (#[trigger] list[k]).0 == index_value(s, starts[k])
            && assigned_value(s, starts[k], assignment_end(s, starts[k])->0, list[k].1)
}

/// `o` is what the block from `i` to `j` reads as, at every depth: at its
/// own level, and each nested block is what the block at its position reads as.
pub open spec fn block_tree(s: Seq<char>, i: int, o: T3dObject, j: int) -> bool
    decreases o,
{
    let p = run(s, span_end(s, span_end(s, i, CharClass::Ident), CharClass::Space), CharClass::Ident);
    let starts = child_starts(s, p, o.type_@);
    &&& block_read(s, i, o, j)
    &&& starts.len() == o.children@.len()
    &&& forall|c: int|
        #![trigger o.children@[c]]
        0 <= c < o.children@.len() ==> block_tree(
            s,
            starts[c],
            *o.children@[c],
            object_end(s, starts[c])->0,
        )
}

proof fn lemma_block_tree_intro(s: Seq<char>, i: int, o: T3dObject, j: int)
    requires
        block_read(s, i, o, j),
        child_starts(s, run(s, span_end(s, span_end(s, i, CharClass::Ident), CharClass::Space), CharClass::Ident), o.type_@).len() == o.children@.len(),
        forall|c: int|
            #![trigger o.children@[c]]
            0 <= c < o.children@.len() ==> block_tree(
                s,
                child_starts(s, run(s, span_end(s, span_end(s, i, CharClass::Ident), CharClass::Space), CharClass::Ident), o.type_@)[c],
                *o.children@[c],
                object_end(s, child_starts(s, run(s, span_end(s, span_end(s, i, CharClass::Ident), CharClass::Space), CharClass::Ident), o.type_@)[c])->0,
            ),
    ensures
        block_tree(s, i, o, j),
{
}

/// `entries` hold, under each name assigned at `starts`, the value of its
/// last assignment there, and nothing else.
pub open spec fn entries_read(s: Seq<char>, starts: Seq<int>, entries: Seq<(String, T3dValue)>) -> bool {
    forall|n: Seq<char>|
        match #[trigger] last_named(s, starts, n) {
            Some(q) => entries_map(entries).contains_key(n) && assigned_value(
                s,
                q,
                assignment_end(s, q)->0,
                entries_map(entries)[n],
            ),
            None => !entries_map(entries).contains_key(n),
        }
}

/// The parser of T3D documents.
pub struct T3dParser;

impl T3dParser {
    /// A name: a letter or `_`, then letters, digits and `_`.
    pub fn id(s: &Vec<char>, i: usize) -> (r: Result<(String, usize), Fault>)
        requires
            i <= s@.len(),
        ensures
            r is Ok <==> i < s@.len() && is_ident_start(s@[i as int]),
            r matches Ok((name, j)) ==> j == span_end(s@, i as int, CharClass::Ident) && i < j
                <= s@.len() && name@ == s@.subrange(i as int, j as int),
            r matches Err(e) ==> e == (i, T3dExpected::Identifier),
    {
        if i < s.len() && is_ident_start_exec(s[i]) {
            proof {
                lemma_span_end_nonempty(s@, i as int, CharClass::Ident);
            }
            let j = scan(s, i, CharClass::Ident);
            Ok((text_of(s, i, j), j))
        } else {
            Err((i, T3dExpected::Identifier))
        }
    }

    /// One value: a parenthesised group, a quoted string, a number, a
    /// reference `Type'Path'`, or a bare word (`true`/`false` in any case are
    /// booleans, any other word an identifier).
    pub fn value(s: &Vec<char>, i: usize) -> (r: Result<(T3dValue, usize), Fault>)
        requires
            i <= s@.len(),
        ensures
            r matches Ok((v, j)) ==> i < j <= s@.len() && value_token(s@, i as int, j as int, v),
            r matches Ok((v, _)) ==> value_tree(s@, i as int, v),
            r matches Ok((_, j)) ==> value_end(s@, i as int) == Some(j as int),
            r is Err ==> value_end(s@, i as int) is None,
            r matches Err(e) ==> (e.0 as int, e.1) == value_err(s@, i as int),
            r matches Err(e) ==> i <= e.0 <= s@.len(),
        decreases s@.len() - i, 2nat,
    {
        if i >= s.len() {
            return Err((i, T3dExpected::Value));
        }
        let c = s[i];
        if c == '(' {
            return Self::group(s, i);
        }
        if c == '"' {
            let e = scan(s, i + 1, CharClass::NotDoubleQuote);
            if e >= s.len() {
                return Err((e, T3dExpected::ClosingQuote));
            }
            proof {
                lemma_span_end_bounds(s@, i + 1, CharClass::NotDoubleQuote);
            }
            return Ok((T3dValue::String(text_of(s, i + 1, e)), e + 1));
        }
        let is_digit = '0' <= c && c <= '9';
        if is_digit || c == '+' || c == '-' {
            if let Some(e) = scan_number(s, i) {
                if e == s.len() || !(char_in_class(CharClass::Word, s[e]) || s[e] == '\'') {
                    let a = if c == '+' || c == '-' {
                        i + 1
                    } else {
                        i
                    };
                    let d = scan(s, a, CharClass::Digit);
                    if e == d {
                        proof {
                            lemma_span_end_bounds(s@, a as int, CharClass::Digit);
                        }
                        return match read_int(s, i, e) {
                            Some(n) => Ok((T3dValue::Int(n), e)),
                            None => Err((i, T3dExpected::IntRange)),
                        };
                    } else {
                        return Ok((T3dValue::Float(T3dFloat { text: text_of(s, i, e) }), e));
                    }
                }
            }
            if !is_digit {
                return Err((i, T3dExpected::Value));
            }
        } else if is_ident_start_exec(c) {
            proof {
                lemma_span_end_nonempty(s@, i as int, CharClass::Ident);
            }
            let k = scan(s, i, CharClass::Ident);
            if k < s.len() && s[k] == '\'' {
                let e = scan(s, k + 1, CharClass::NotQuote);
                if e >= s.len() {
                    return Err((e, T3dExpected::ClosingQuote));
                }
                proof {
                    lemma_span_end_bounds(s@, k + 1, CharClass::NotQuote);
                }
                let reference = T3dReference { type_: text_of(s, i, k), path: text_of(s, k + 1, e) };
                return Ok((T3dValue::Reference(reference), e + 1));
            }
        } else {
            return Err((i, T3dExpected::Value));
        }
        proof {
            lemma_span_end_nonempty(s@, i as int, CharClass::Word);
        }
        let j = scan(s, i, CharClass::Word);
        if span_is(s, i, j, &['t', 'r', 'u', 'e'], &['T', 'R', 'U', 'E']) {
            Ok((T3dValue::Bool(true), j))
        } else if span_is(s, i, j, &['f', 'a', 'l', 's', 'e'], &['F', 'A', 'L', 'S', 'E']) {
            Ok((T3dValue::Bool(false), j))
        } else {
            Ok((T3dValue::Identifier(text_of(s, i, j)), j))
        }
    }

    /// A parenthesised group: a struct where it opens with `Name=` or
    /// `Name[`, else an array of values, separated by commas.
    pub fn group(s: &Vec<char>, i: usize) -> (r: Result<(T3dValue, usize), Fault>)
        requires
            i < s@.len(),
            s@[i as int] == '(',
        ensures
            r matches Ok((v, j)) ==> i < j <= s@.len() && s@[j - 1] == ')' && match v {
                T3dValue::Struct(entries) => opens_struct(s@, i as int) && entries@.len() > 0
                    && entries_read(s@, entry_starts(s@, i + 1), entries@)
                    && entries_tree(s@, entry_starts(s@, i + 1), entries@),
                T3dValue::Array(items) => {
                    let starts = item_starts(s@, i + 1);
                    &&& !opens_struct(s@, i as int)
                    &&& items@.len() > 0
                    &&& items@.len() == starts.len()
                    &&& forall|k: int|
                        0 <= k < items@.len() ==> (#[trigger] items@[k] matches Some(x) && value_token(
                            s@,
                            starts[k],
                            value_end(s@, starts[k])->0,
                            x,
                        ) && value_tree(s@, starts[k], x))
                },
                _ => false,
            },
            r matches Ok((_, j)) ==> group_end(s@, i as int) == Some(j as int),
            r is Err ==> group_end(s@, i as int) is None,
            r matches Err(e) ==> (e.0 as int, e.1) == group_err(s@, i as int),
            r matches Err(e) ==> i <= e.0 <= s@.len(),
        decreases s@.len() - i, 1nat,
    {
        let n = s.len();
        assert(i < n);
        let p = scan(s, i + 1, CharClass::Space);
        let mut is_struct = false;
        if p < s.len() && is_ident_start_exec(s[p]) {
            let k = scan(s, p, CharClass::Ident);
            let m = scan(s, k, CharClass::InlineSpace);
            is_struct = m < s.len() && (s[m] == '=' || s[m] == '[');
        }
        assert(is_struct == opens_struct(s@, i as int));
        let mut pos = i + 1;
        if is_struct {
            let mut entries: Vec<(String, T3dValue)> = Vec::new();
            let ghost mut done: Seq<int> = Seq::empty();
            assert(done + entry_starts(s@, pos as int) =~= entry_starts(s@, i + 1));
            assert forall|n: Seq<char>| match #[trigger] last_named(s@, done, n) {
                Some(q) => entries_map(entries@).contains_key(n) && assigned_value(
                    s@,
                    q,
                    assignment_end(s@, q)->0,
                    entries_map(entries@)[n],
                ),
                None => !entries_map(entries@).contains_key(n),
            } by {}
            loop
                invariant
                    i < pos <= s@.len(),
                    pos > i + 1 ==> entries@.len() > 0,
                    entries_end(s@, pos as int) == group_end(s@, i as int),
                    entries_err(s@, pos as int) == group_err(s@, i as int),
                    opens_struct(s@, i as int),
                    done + entry_starts(s@, pos as int) == entry_starts(s@, i + 1),
                    entries_read(s@, done, entries@),
                    entries_tree(s@, done, entries@),
                decreases s@.len() - pos,
            {
                let p = scan(s, pos, CharClass::Space);
                let (a, q) = match Self::property_assignment(s, p) {
                    Ok(x) => x,
                    Err(e) => {
                        return Err(e);
                    },
                };
                let ghost before = entries@;
                let ghost name = a.name@;
                let ghost value = a.value;
                struct_insert(&mut entries, a.name, a.value);
                let r = scan(s, q, CharClass::Space);
                proof {
                    lemma_span_end_bounds(s@, p as int, CharClass::Ident);
                    let old_done = done;
                    done = done.push(p as int);
                    assert(done.drop_last() == old_done);
                    assert forall|k: int|
                        #![trigger entries@[k]]
                        0 <= k < entries@.len() implies match last_named(s@, done, entries@[k].0@) {
                            Some(x) => if no_value_at(s@, value_start(s@, x)) {
                                entries@[k].1 matches T3dValue::String(t) && t@.len() == 0
                            } else {
                                value_tree(s@, value_start(s@, x), entries@[k].1)
                            },
                            None => false,
                        } by {
                        if entries@[k].0@ != name {
                            let j = choose|j: int|
                                0 <= j < before.len() && before[j] == entries@[k] && entries@[k].0@
                                    != name;
                            assert(before[j] == entries@[k]);
                        }
                    }
                    assert forall|n: Seq<char>| match #[trigger] last_named(s@, done, n) {
                        Some(x) => entries_map(entries@).contains_key(n) && assigned_value(
                            s@,
                            x,
                            assignment_end(s@, x)->0,
                            entries_map(entries@)[n],
                        ),
                        None => !entries_map(entries@).contains_key(n),
                    } by {
                        assert(last_named(s@, done, n) == if name == n {
                            Some(p as int)
                        } else {
                            last_named(s@, old_done, n)
                        });
                    }
                }
                if r < s.len() && s[r] == ',' {
                    assert(entry_starts(s@, pos as int) == seq![p as int] + entry_starts(s@, r + 1));
                    assert(done + entry_starts(s@, r + 1) =~= done.drop_last() + entry_starts(
                        s@,
                        pos as int,
                    ));
                    pos = r + 1;
                } else if r < s.len() && s[r] == ')' {
                    assert(entry_starts(s@, pos as int) == seq![p as int]);
                    assert(done =~= done.drop_last() + entry_starts(s@, pos as int));
                    return Ok((T3dValue::Struct(entries), r + 1));
                } else {
                    return Err((r, T3dExpected::CloseParen));
                }
            }
        } else {
            let mut values: Vec<Option<T3dValue>> = Vec::new();
            let ghost mut done: Seq<int> = Seq::empty();
            assert(done + item_starts(s@, pos as int) =~= item_starts(s@, i + 1));
            loop
                invariant
                    i < pos <= s@.len(),
                    done + item_starts(s@, pos as int) == item_starts(s@, i + 1),
                    done.len() == values@.len(),
                    forall|k: int|
                        0 <= k < values@.len() ==> (#[trigger] values@[k] matches Some(x) && value_token(
                            s@,
                            done[k],
                            value_end(s@, done[k])->0,
                            x,
                        ) && value_tree(s@, done[k], x)),
                    items_end(s@, pos as int) == group_end(s@, i as int),
                    items_err(s@, pos as int) == group_err(s@, i as int),
                    !opens_struct(s@, i as int),
                decreases s@.len() - pos,
            {
                let p = scan(s, pos, CharClass::Space);
                let (v, q) = match Self::value(s, p) {
                    Ok(x) => x,
                    Err(e) => {
                        return Err(e);
                    },
                };
                let ghost before = values@;
                values.push(Some(v));
                let r = scan(s, q, CharClass::Space);
                proof {
                    done = done.push(p as int);
                    assert forall|k: int| 0 <= k < values@.len() implies (#[trigger] values@[k] matches Some(
                        x,
                    ) && value_token(s@, done[k], value_end(s@, done[k])->0, x) && value_tree(
                        s@,
                        done[k],
                        x,
                    )) by {
                        if k < before.len() {
                            assert(values@[k] == before[k]);
                        }
                    }
                }
                if r < s.len() && s[r] == ',' {
                    assert(item_starts(s@, pos as int) == seq![p as int] + item_starts(s@, r + 1));
                    assert(done + item_starts(s@, r + 1) =~= done.drop_last() + item_starts(
                        s@,
                        pos as int,
                    ));
                    pos = r + 1;
                } else if r < s.len() && s[r] == ')' {
                    assert(item_starts(s@, pos as int) == seq![p as int]);
                    assert(done =~= done.drop_last() + item_starts(s@, pos as int));
                    return Ok((T3dValue::Array(values), r + 1));
                } else {
                    return Err((r, T3dExpected::CloseParen));
                }
            }
        }
    }

    /// `Name=Value`, `Name[Index]=Value`, or either with nothing after `=`
    /// on its line, which stands for the empty string.
    pub fn property_assignment(s: &Vec<char>, i: usize) -> (r: Result<(T3dPropertyAssignment, usize), Fault>)
        requires
            i <= s@.len(),
        ensures
            r matches Ok((a, j)) ==> {
                let k = span_end(s@, i as int, CharClass::Ident);
                let m = span_end(s@, k, CharClass::InlineSpace);
                &&& i < j <= s@.len()
                &&& a.name@ == s@.subrange(i as int, k)
                &&& m < s@.len()
                &&& (a.index is Some <==> s@[m] == '[')
                &&& a.index is None ==> s@[m] == '='
                &&& a.index == index_value(s@, i as int)
                &&& assigned_value(s@, i as int, j as int, a.value)
            },
            r matches Ok((_, j)) ==> assignment_end(s@, i as int) == Some(j as int),
            r is Err ==> assignment_end(s@, i as int) is None,
            r matches Err(e) ==> (e.0 as int, e.1) == assignment_err(s@, i as int),
            r matches Err(e) ==> i <= e.0 <= s@.len(),
            r is Ok ==> i < s@.len() && is_ident_start(s@[i as int]),
        decreases s@.len() - i, 2nat,
    {
        let (name, k) = match Self::id(s, i) {
            Ok(x) => x,
            Err(e) => {
                return Err(e);
            },
        };
        let m0 = scan(s, k, CharClass::InlineSpace);
        let mut m = m0;
        let mut index: Option<i32> = None;
        if m < s.len() && s[m] == '[' {
            let a = scan(s, m + 1, CharClass::InlineSpace);
            let b = if a < s.len() && (s[a] == '+' || s[a] == '-') {
                a + 1
            } else {
                a
            };
            let d = scan(s, b, CharClass::Digit);
            if a >= s.len() || d == b {
                return Err((a, T3dExpected::Index));
            }
            proof {
                lemma_span_end_bounds(s@, b as int, CharClass::Digit);
            }
            match read_int(s, a, d) {
                Some(n) => {
                    index = Some(n);
                },
                None => {
                    return Err((a, T3dExpected::IntRange));
                },
            }
            let c = scan(s, d, CharClass::InlineSpace);
            if c >= s.len() || s[c] != ']' {
                return Err((c, T3dExpected::CloseBracket));
            }
            m = scan(s, c + 1, CharClass::InlineSpace);
        }
        if m >= s.len() || s[m] != '=' {
            return Err((m, T3dExpected::Equals));
        }
        let v = scan(s, m + 1, CharClass::InlineSpace);
        if v >= s.len() || s[v] == '\n' || s[v] == '\r' || s[v] == ',' || s[v] == ')' {
            let value = T3dValue::String(String::new());
            assert(value matches T3dValue::String(t) && t@.len() == 0);
            return Ok((T3dPropertyAssignment { name, index, value }, v));
        }
        match Self::value(s, v) {
            Ok((value, j)) => {
                assert(value_token(s@, v as int, j as int, value));
                Ok((T3dPropertyAssignment { name, index, value }, j))
            },
            Err(e) => Err(e),
        }
    }

    /// One vector component: a number, kept as written.
    pub fn component(s: &Vec<char>, i: usize) -> (r: Result<(T3dFloat, usize), Fault>)
        requires
            i <= s@.len(),
        ensures
            r is Ok <==> has_number(s@, i as int),
            r matches Ok((f, j)) ==> j == number_end(s@, i as int) && i < j <= s@.len()
                && f.text@ == s@.subrange(i as int, j as int),
            r matches Err(e) ==> e == (i, T3dExpected::Number),
    {
        match scan_number(s, i) {
            Some(e) => Ok((T3dFloat { text: text_of(s, i, e) }, e)),
            None => Err((i, T3dExpected::Number)),
        }
    }

    /// `x,y,z` after a vector property's name.
    pub fn vector(s: &Vec<char>, i: usize) -> (r: Result<(T3dVector, usize), Fault>)
        requires
            i <= s@.len(),
        ensures
            r matches Ok((v, j)) ==> i < j <= s@.len() && v.x.text@ == s@.subrange(
                i as int,
                number_end(s@, i as int),
            ),
            r matches Ok((v, _)) ==> v.y.text@ == number_text(s@, second_start(s@, i as int))
                && v.z.text@ == number_text(s@, third_start(s@, i as int)),
            r matches Ok((_, j)) ==> vector_end(s@, i as int) == Some(j as int),
            r is Err ==> vector_end(s@, i as int) is None,
            r matches Err(e) ==> (e.0 as int, e.1) == vector_err(s@, i as int),
            r matches Err(e) ==> i <= e.0 <= s@.len(),
    {
        let (x, a) = match Self::component(s, i) {
            Ok(c) => c,
            Err(e) => {
                return Err(e);
            },
        };
        let b = scan(s, a, CharClass::InlineSpace);
        if b >= s.len() || s[b] != ',' {
            return Err((b, T3dExpected::Comma));
        }
        let c = scan(s, b + 1, CharClass::InlineSpace);
        let (y, d) = match Self::component(s, c) {
            Ok(c) => c,
            Err(e) => {
                return Err(e);
            },
        };
        let e = scan(s, d, CharClass::InlineSpace);
        if e >= s.len() || s[e] != ',' {
            return Err((e, T3dExpected::Comma));
        }
        let f = scan(s, e + 1, CharClass::InlineSpace);
        let (z, g) = match Self::component(s, f) {
            Ok(c) => c,
            Err(e) => {
                return Err(e);
            },
        };
        Ok((T3dVector { x, y, z }, g))
    }

    /// A block: `Begin Type`, its statements, then `End Type`. A statement
    /// whose name is followed by `=` or `[` is a property assignment; else
    /// `Begin` opens a nested block, `End` closes this one, and a name
    /// followed by a number is a vector statement. Each statement is folded
    /// in with `T3dObject::add_statement`.
    #[verifier::spinoff_prover]
    #[verifier::rlimit(60)]
    pub fn object(s: &Vec<char>, i: usize) -> (r: Result<(T3dObject, usize), Fault>)
        requires
            i <= s@.len(),
        ensures
            r matches Ok((o, j)) ==> block_tree(s@, i as int, o, j as int),
            r matches Ok((_, j)) ==> object_end(s@, i as int) == Some(j as int),
            r is Err ==> object_end(s@, i as int) is None,
            r matches Err(e) ==> (e.0 as int, e.1) == object_err(s@, i as int),
            r matches Err(e) ==> object_fail(s@, i as int) <= e.0,
            r matches Err(e) ==> i <= e.0 <= s@.len(),
        decreases s@.len() - i,
    {
        let (keyword, k) = match Self::id(s, i) {
            Ok(x) => x,
            Err(_) => {
                return Err((i, T3dExpected::Begin));
            },
        };
        if !keyword.eq(&String::from_str("Begin")) {
            return Err((i, T3dExpected::Begin));
        }
        let m = scan(s, k, CharClass::Space);
        if m == k {
            return Err((m, T3dExpected::Identifier));
        }
        proof {
            lemma_span_end_bounds(s@, k as int, CharClass::Space);
        }
        let (type_, p) = match Self::id(s, m) {
            Ok(x) => x,
            Err(e) => {
                return Err(e);
            },
        };
        let end_keyword = String::from_str("End");
        let begin_keyword = String::from_str("Begin");
        let mut object = T3dObject::new(type_);
        let mut pos = p;
        let ghost mut ends: Map<Seq<char>, int> = Map::empty();
        let ghost mut seen: Map<Seq<char>, Seq<int>> = Map::empty();
        let ghost mut kids: Seq<int> = Seq::empty();
        assert(kids + child_starts(s@, p as int, object.type_@) =~= child_starts(
            s@,
            p as int,
            object.type_@,
        ));
        assert(seen.dom() =~= object.property_map().dom());
        assert(ends.dom() =~= object.property_map().dom());
        loop
            invariant
                i < m < p <= pos <= s@.len(),
                names_unique(object.properties@),
                object.type_@ == s@.subrange(m as int, p as int),
                p == span_end(s@, m as int, CharClass::Ident),
                m == span_end(s@, k as int, CharClass::Space),
                k == span_end(s@, i as int, CharClass::Ident),
                s@.subrange(i as int, k as int) == "Begin"@,
                end_keyword@ == "End"@,
                begin_keyword@ == "Begin"@,
                statements_end(s@, pos as int, object.type_@) == object_end(s@, i as int),
                statements_fail(s@, pos as int, object.type_@) == object_fail(s@, i as int),
                statements_err(s@, pos as int, object.type_@) == object_err(s@, i as int),
                object.type_@ == block_type(s@, i as int),
                object.vector_properties@.map_values(|e: (String, T3dVector)| vector_parts(e))
                    + block_vectors(s@, pos as int, object.type_@) == block_vectors(
                    s@,
                    p as int,
                    object.type_@,
                ),
                object.children@.map_values(|c: Box<T3dObject>| c.type_@) + block_children(
                    s@,
                    pos as int,
                    object.type_@,
                ) == block_children(s@, p as int, object.type_@),
                block_properties(s@, pos as int, object.type_@).union_prefer_right(
                    property_kinds(object.property_map()),
                ) == block_properties(s@, p as int, object.type_@),
                block_first_starts(s@, pos as int, object.type_@).union_prefer_right(ends)
                    == block_first_starts(s@, p as int, object.type_@),
                ends.dom() == object.property_map().dom(),
                seen.dom() == object.property_map().dom(),
                kids + child_starts(s@, pos as int, object.type_@) == child_starts(
                    s@,
                    p as int,
                    object.type_@,
                ),
                kids.len() == object.children@.len(),
                forall|c: int|
                    #![trigger object.children@[c]]
                    0 <= c < object.children@.len() ==> block_tree(
                        s@,
                        kids[c],
                        *object.children@[c],
                        object_end(s@, kids[c])->0,
                    ),
                forall|n: Seq<char>| #[trigger]
                    seen.contains_key(n) ==> seen[n] + block_assignments(
                        s@,
                        pos as int,
                        object.type_@,
                        n,
                    ) == block_assignments(s@, p as int, object.type_@, n),
                forall|n: Seq<char>|
                    !seen.contains_key(n) ==> #[trigger] block_assignments(
                        s@,
                        pos as int,
                        object.type_@,
                        n,
                    ) == block_assignments(s@, p as int, object.type_@, n),
                forall|n: Seq<char>| #[trigger]
                    object.property_map().contains_key(n) ==> (
                    object.property_map()[n] matches PropertyModel::Array(list) ==> assignments_read(
                        s@,
                        seen[n],
                        list,
                    )),
                forall|n: Seq<char>| #[trigger]
                    object.property_map().contains_key(n) ==> (
                    object.property_map()[n] matches PropertyModel::Value(v) ==> assigned_value(
                        s@,
                        ends[n],
                        assignment_end(s@, ends[n])->0,
                        v,
                    )),
            decreases s@.len() - pos,
        {
            let q = scan(s, pos, CharClass::Space);
            let (word, wk) = match Self::id(s, q) {
                Ok(x) => x,
                Err(_) => {
                    return Err((q, T3dExpected::Statement));
                },
            };
            let wm = scan(s, wk, CharClass::InlineSpace);
            if wm < s.len() && (s[wm] == '=' || s[wm] == '[') {
                let (a, e) = match Self::property_assignment(s, q) {
                    Ok(x) => x,
                    Err(e) => {
                        return Err(e);
                    },
                };
                let ghost before = object.property_map();
                let ghost name = a.name@;
                let ghost index = a.index;
                let ghost value = a.value;
                object.add_statement(T3dObjectStatement::PropertyAssignment(a));
                proof {
                    lemma_assign_kinds(before, name, index, value);
                    let ty = object.type_@;
                    let rest = block_properties(s@, e as int, ty);
                    assert(block_properties(s@, pos as int, ty) == rest.insert(name, index is Some));
                    let rest_ends = block_first_starts(s@, e as int, ty);
                    assert(block_first_starts(s@, pos as int, ty) == rest_ends.insert(name, q as int));
                    if before.contains_key(name) {
                        assert(rest.insert(name, index is Some).union_prefer_right(property_kinds(before))
                            =~= rest.union_prefer_right(property_kinds(before)));
                        assert(rest_ends.insert(name, q as int).union_prefer_right(ends)
                            =~= rest_ends.union_prefer_right(ends));
                        assert(object.property_map().dom() =~= before.dom());
                    } else {
                        assert(rest_ends.insert(name, q as int).union_prefer_right(ends)
                            =~= rest_ends.union_prefer_right(ends.insert(name, q as int)));
                        ends = ends.insert(name, q as int);
                        assert(ends.dom() =~= object.property_map().dom());
                        assert(rest.insert(name, index is Some).union_prefer_right(property_kinds(before))
                            =~= rest.union_prefer_right(property_kinds(before).insert(name, index is Some)));
                    }
                }
                proof {
                    let ty = object.type_@;
                    assert(child_starts(s@, pos as int, ty) == child_starts(s@, e as int, ty));
                    assert forall|n: Seq<char>|
                        block_assignments(s@, pos as int, ty, n) == (if n == name {
                            seq![q as int]
                        } else {
                            Seq::<int>::empty()
                        }) + #[trigger] block_assignments(s@, e as int, ty, n) by {}
                    let old_seen = seen;
                    let prior = if old_seen.contains_key(name) {
                        old_seen[name]
                    } else {
                        Seq::<int>::empty()
                    };
                    seen = old_seen.insert(name, prior.push(q as int));
                    assert(seen.dom() =~= object.property_map().dom());
                    assert forall|n: Seq<char>| #[trigger]
                        seen.contains_key(n) implies seen[n] + block_assignments(s@, e as int, ty, n)
                        == block_assignments(s@, p as int, ty, n) by {
                        if n == name {
                            assert(prior.push(q as int) + block_assignments(s@, e as int, ty, n)
                                =~= prior + block_assignments(s@, pos as int, ty, n));
                        } else {
                            assert(Seq::<int>::empty() + block_assignments(s@, e as int, ty, n)
                                =~= block_assignments(s@, e as int, ty, n));
                        }
                    }
                    assert forall|n: Seq<char>|
                        !seen.contains_key(n) implies #[trigger] block_assignments(
                            s@,
                            e as int,
                            ty,
                            n,
                        ) == block_assignments(s@, p as int, ty, n) by {
                        assert(Seq::<int>::empty() + block_assignments(s@, e as int, ty, n)
                            =~= block_assignments(s@, e as int, ty, n));
                    }
                    assert forall|n: Seq<char>| #[trigger]
                        object.property_map().contains_key(n) implies (
                        object.property_map()[n] matches PropertyModel::Array(list)
                            ==> assignments_read(s@, seen[n], list)) by {
                        if n == name {
                            if let PropertyModel::Array(list) = object.property_map()[n] {
                                if before.contains_key(name) {
                                    if let PropertyModel::Array(a0) = before[name] {
                                        assert(list == a0.push((index, value)));
                                        assert(assignments_read(s@, prior, a0));
                                        assert forall|k: int| 0 <= k < list.len() implies (
                                            #[trigger] list[k]).0 == index_value(s@, seen[n][k])
                                            && assigned_value(
                                            s@,
                                            seen[n][k],
                                            assignment_end(s@, seen[n][k])->0,
                                            list[k].1,
                                        ) by {
                                            if k < a0.len() {
                                                assert(list[k] == a0[k]);
                                                assert(seen[n][k] == prior[k]);
                                            }
                                        }
                                    }
                                } else {
                                    assert(list == seq![(index, value)]);
                                    assert(seen[n] == seq![q as int]);
                                }
                            }
                        } else {
                            assert(object.property_map()[n] == before[n]);
                        }
                    }
                }
                pos = e;
            } else if word.eq(&begin_keyword) {
                let (child, e) = match Self::object(s, q) {
                    Ok(x) => x,
                    Err(e) => {
                        return Err(e);
                    },
                };
                let ghost before_children = object.children@;
                let ghost child_copy = child;
                object.add_statement(T3dObjectStatement::Object(child));
                proof {
                    let ty = object.type_@;
                    assert(child_starts(s@, pos as int, ty) == seq![q as int] + child_starts(
                        s@,
                        e as int,
                        ty,
                    ));
                    assert(kids.push(q as int) + child_starts(s@, e as int, ty) =~= kids
                        + child_starts(s@, pos as int, ty));
                    kids = kids.push(q as int);
                    assert forall|c: int|
                        #![trigger object.children@[c]]
                        0 <= c < object.children@.len() implies block_tree(
                            s@,
                            kids[c],
                            *object.children@[c],
                            object_end(s@, kids[c])->0,
                        ) by {
                        if c < before_children.len() {
                            assert(object.children@[c] == before_children[c]);
                        } else {
                            assert(*object.children@[c] == child_copy);
                        }
                    }
                    assert forall|n: Seq<char>|
                        block_assignments(s@, pos as int, ty, n) == #[trigger] block_assignments(
                            s@,
                            e as int,
                            ty,
                            n,
                        ) by {}
                }
                pos = e;
            } else if word.eq(&end_keyword) {
                if wm == wk {
                    return Err((wm, T3dExpected::EndName));
                }
                return match Self::id(s, wm) {
                    Ok((name, e)) => {
                        if name.eq(&object.type_) {
                            assert(block_read(s@, i as int, object, e as int)) by {
                                assert(s@.subrange(wm as int, e as int) == object.type_@);
                                assert(p == run(
                                    s@,
                                    span_end(s@, k as int, CharClass::Space),
                                    CharClass::Ident,
                                ));
                                assert(block_vectors(s@, pos as int, object.type_@) =~= Seq::empty());
                                assert(block_children(s@, pos as int, object.type_@) =~= Seq::empty());
                                assert(block_properties(s@, pos as int, object.type_@)
                                    =~= Map::empty());
                                assert(object.vector_properties@.map_values(
                                    |e: (String, T3dVector)| vector_parts(e),
                                ) =~= block_vectors(s@, p as int, object.type_@));
                                assert(object.children@.map_values(|c: Box<T3dObject>| c.type_@)
                                    =~= block_children(s@, p as int, object.type_@));
                                assert(property_kinds(object.property_map()) =~= block_properties(
                                    s@,
                                    p as int,
                                    object.type_@,
                                ));
                                assert(block_first_starts(s@, pos as int, object.type_@)
                                    =~= Map::empty());
                                assert(ends =~= block_first_starts(s@, p as int, object.type_@));
                                assert forall|n: Seq<char>| #[trigger]
                                    object.property_map().contains_key(n) implies (
                                    object.property_map()[n] matches PropertyModel::Array(list)
                                        ==> assignments_read(
                                        s@,
                                        block_assignments(s@, p as int, object.type_@, n),
                                        list,
                                    )) by {
                                    assert(block_assignments(s@, pos as int, object.type_@, n)
                                        =~= Seq::<int>::empty());
                                    assert(seen.contains_key(n));
                                    assert(seen[n] + Seq::<int>::empty() =~= seen[n]);
                                }
                            }
                            proof {
                                assert(child_starts(s@, pos as int, object.type_@) =~= Seq::<int>::empty());
                                assert(kids =~= kids + child_starts(s@, pos as int, object.type_@));
                                lemma_block_tree_intro(s@, i as int, object, e as int);
                            }
                            Ok((object, e))
                        } else {
                            Err((wm, T3dExpected::EndName))
                        }
                    },
                    Err(_) => Err((wm, T3dExpected::EndName)),
                };
            } else if wm > wk {
                let (value, e) = match Self::vector(s, wm) {
                    Ok(x) => x,
                    Err(_) => {
                        return Err((wm, T3dExpected::Statement));
                    },
                };
                object.add_statement(
                    T3dObjectStatement::PropertyAssignmentVector(
                        T3dPropertyAssignmentVector { name: word, value },
                    ),
                );
                proof {
                    let ty = object.type_@;
                    assert(child_starts(s@, pos as int, ty) == child_starts(s@, e as int, ty));
                    assert forall|n: Seq<char>|
                        block_assignments(s@, pos as int, ty, n) == #[trigger] block_assignments(
                            s@,
                            e as int,
                            ty,
                            n,
                        ) by {}
                }
                pos = e;
            } else {
                return Err((wm, T3dExpected::Statement));
            }
        }
    }

    /// A whole document: blocks separated by whitespace, to the end of the input.
    pub fn t3d(s: &Vec<char>) -> (r: Result<Vec<T3dObject>, Fault>)
        ensures
            r matches Err(e) ==> e.0 <= s@.len(),
            r is Ok <==> is_document(s@),
            r matches Ok(objects) ==> objects@.map_values(|o: T3dObject| o.type_@)
                == block_types_from(s@, 0),
            r matches Ok(objects) ==> objects@.len() == block_starts_from(s@, 0).len()
                && forall|k: int|
                0 <= k < objects@.len() ==> block_tree(
                    s@,
                    block_starts_from(s@, 0)[k],
                    #[trigger] objects@[k],
                    object_end(s@, block_starts_from(s@, 0)[k])->0,
                ),
            r matches Err(e) ==> failure_from(s@, 0) <= e.0,
            r matches Err(e) ==> (e.0 as int, e.1) == blocks_err(s@, 0),
    {
        let mut objects: Vec<T3dObject> = Vec::new();
        let mut pos: usize = 0;
        let ghost mut done: Seq<int> = Seq::empty();
        assert(done + block_starts_from(s@, 0) =~= block_starts_from(s@, 0));
        loop
            invariant
                pos <= s@.len(),
                blocks_from(s@, pos as int) == is_document(s@),
                objects@.map_values(|o: T3dObject| o.type_@) + block_types_from(s@, pos as int)
                    == block_types_from(s@, 0),
                done + block_starts_from(s@, pos as int) == block_starts_from(s@, 0),
                done.len() == objects@.len(),
                forall|k: int|
                    0 <= k < objects@.len() ==> block_tree(
                        s@,
                        done[k],
                        #[trigger] objects@[k],
                        object_end(s@, done[k])->0,
                    ),
                failure_from(s@, pos as int) == failure_from(s@, 0),
                blocks_err(s@, pos as int) == blocks_err(s@, 0),
            decreases s@.len() - pos,
        {
            let q = scan(s, pos, CharClass::Space);
            if q == s.len() {
                assert(block_types_from(s@, pos as int) =~= Seq::empty());
                assert(objects@.map_values(|o: T3dObject| o.type_@) =~= block_types_from(s@, 0));
                assert(block_starts_from(s@, pos as int) =~= Seq::empty());
                assert(done =~= block_starts_from(s@, 0));
                return Ok(objects);
            }
            let (o, e) = match Self::object(s, q) {
                Ok(x) => x,
                Err(e) => {
                    return Err(e);
                },
            };
            let ghost before = objects@;
            objects.push(o);
            proof {
                assert(block_read(s@, q as int, objects@[objects@.len() - 1], e as int));
                assert(objects@.map_values(|o: T3dObject| o.type_@) =~= before.map_values(
                    |o: T3dObject| o.type_@,
                ).push(o.type_@));
                assert(block_starts_from(s@, pos as int) == seq![q as int] + block_starts_from(
                    s@,
                    e as int,
                ));
                assert(done.push(q as int) + block_starts_from(s@, e as int) =~= done
                    + block_starts_from(s@, pos as int));
                done = done.push(q as int);
                assert forall|k: int| 0 <= k < objects@.len() implies block_tree(
                    s@,
                    done[k],
                    #[trigger] objects@[k],
                    object_end(s@, done[k])->0,
                ) by {
                    if k < before.len() {
                        assert(objects@[k] == before[k]);
                    }
                }
            }
            pos = e;
        }
    }
}

/// The number of line breaks before position `p`.
pub open spec fn breaks_before(s: Seq<char>, p: int) -> int
    decreases p,
{
    if p <= 0 {
        0
    } else {
        breaks_before(s, p - 1) + if s[p - 1] == '\n' {
            1int
        } else {
            0int
        }
    }
}

/// The position where the line holding `p` begins.
pub open spec fn line_start(s: Seq<char>, p: int) -> int
    decreases p,
{
    if p <= 0 {
        0
    } else if s[p - 1] == '\n' {
        p
    } else {
        line_start(s, p - 1)
    }
}

/// The line (from 1) and column (from 1) of position `p`.
pub fn line_column(s: &Vec<char>, p: usize) -> (r: (usize, usize))
    requires
        p <= s@.len(),
        p < usize::MAX,
    ensures
        r.0 == breaks_before(s@, p as int) + 1,
        r.1 == p - line_start(s@, p as int) + 1,
{
    let mut line: usize = 1;
    let mut start: usize = 0;
    let mut k: usize = 0;
    while k < p
        invariant
            k <= p <= s@.len(),
            p < usize::MAX,
            line == breaks_before(s@, k as int) + 1,
            start == line_start(s@, k as int),
            start <= k,
            line <= k + 1,
        decreases p - k,
    {
        if s[k] == '\n' {
            line = line + 1;
            start = k + 1;
        }
        k = k + 1;
    }
    (line, p - start + 1)
}

/// The characters of `text`, in order.
pub fn chars_of(text: &str) -> (r: Vec<char>)
    ensures
        r@ == text@,
{
    broadcast use vstd::string::group_string_axioms;

    let mut out: Vec<char> = Vec::new();
    let mut it = text.chars();
    loop
        invariant
            text@ == out@ + it.remaining(),
            it.obeys_prophetic_iter_laws(),
            it.decrease() is Some,
        decreases it.decrease()->0,
    {
        match it.next() {
            Some(c) => {
                out.push(c);
            },
            None => {
                return out;
            },
        }
    }
}

/// Parses a T3D document into its top-level blocks, or reports where and
/// why it does not conform; no blocks are returned on failure.
pub fn parse_t3d(contents: &str) -> (r: Result<Vec<T3dObject>, T3dSyntaxError>)
    ensures
        r matches Err(e) ==> e.position <= contents@.len() && (e.position < usize::MAX ==> e.line
            == breaks_before(contents@, e.position as int) + 1 && e.column == e.position
            - line_start(contents@, e.position as int) + 1),
        r is Ok <==> is_document(contents@),
        r matches Ok(objects) ==> objects@.map_values(|o: T3dObject| o.type_@)
            == block_types_from(contents@, 0),
        r matches Ok(objects) ==> objects@.len() == block_starts_from(contents@, 0).len()
            && forall|k: int|
            0 <= k < objects@.len() ==> block_tree(
                contents@,
                block_starts_from(contents@, 0)[k],
                #[trigger] objects@[k],
                object_end(contents@, block_starts_from(contents@, 0)[k])->0,
            ),
        r matches Err(e) ==> failure_from(contents@, 0) <= e.position,
        r matches Err(e) ==> e.position == blocks_err(contents@, 0).0 && e.expected == blocks_err(
            contents@,
            0,
        ).1,
{
    let s = chars_of(contents);
    match T3dParser::t3d(&s) {
        Ok(objects) => Ok(objects),
        Err((position, expected)) => {
            let (line, column) = if position < usize::MAX {
                line_column(&s, position)
            } else {
                (usize::MAX, usize::MAX)
            };
            Err(T3dSyntaxError { position, line, column, expected })
        },
    }
}

} // verus!
