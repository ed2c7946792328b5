//! The T3D grammar as spec functions: for each rule, where a match that
//! starts at a position ends, or `None` where the rule does not match there.
use vstd::prelude::*;
use crate::lexer::{
    span_end, sign_end, number_end, has_number, number_is_int, int_value, is_digit,
    is_ident_start, in_class, CharClass,
};
use crate::parser::T3dExpected;

verus! {

/// `span_end`, read as `i` wherever it would leave `i..=s.len()` (which
/// it never does from a position of the input).
pub open spec fn run(s: Seq<char>, i: int, k: CharClass) -> int {
    let e = span_end(s, i, k);
    if i <= e <= s.len() {
        e
    } else {
        i
    }
}

/// Past the whitespace (line breaks included) at `i`.
pub open spec fn ws(s: Seq<char>, i: int) -> int {
    run(s, i, CharClass::Space)
}

/// Past the spaces and tabs at `i`.
pub open spec fn iws(s: Seq<char>, i: int) -> int {
    run(s, i, CharClass::InlineSpace)
}

/// A number at `i` that is not the start of a longer word or a reference.
pub open spec fn number_token(s: Seq<char>, i: int) -> bool {
    &&& has_number(s, i)
    &&& {
        let e = number_end(s, i);
        e == s.len() || !(in_class(CharClass::Word, s[e]) || s[e] == '\'')
    }
}

pub open spec fn fits_i32(n: int) -> bool {
    i32::MIN <= n <= i32::MAX
}

/// `(` at `i` opens a struct: a name follows, then `=` or `[`.
pub open spec fn opens_struct(s: Seq<char>, i: int) -> bool {
    let p = ws(s, i + 1);
    &&& p < s.len()
    &&& is_ident_start(s[p])
    &&& {
        let m = iws(s, run(s, p, CharClass::Ident));
        m < s.len() && (s[m] == '=' || s[m] == '[')
    }
}

/// value := group | string | number | reference | bare word
pub open spec fn value_end(s: Seq<char>, i: int) -> Option<int>
    decreases s.len() - i, 2nat,
{
    if i < 0 || i >= s.len() {
        None
    } else if s[i] == '(' {
        group_end(s, i)
    } else if s[i] == '"' {
        let e = span_end(s, i + 1, CharClass::NotDoubleQuote);
        if e < s.len() {
            Some(e + 1)
        } else {
            None
        }
    } else if is_digit(s[i]) || s[i] == '+' || s[i] == '-' {
        if number_token(s, i) {
            let e = number_end(s, i);
            if number_is_int(s, i) && !fits_i32(int_value(s, i, e)) {
                None
            } else {
                Some(e)
            }
        } else if is_digit(s[i]) {
            Some(span_end(s, i, CharClass::Word))
        } else {
            None
        }
    } else if is_ident_start(s[i]) {
        let k = run(s, i, CharClass::Ident);
        if k < s.len() && s[k] == '\'' {
            let e = span_end(s, k + 1, CharClass::NotQuote);
            if e < s.len() {
                Some(e + 1)
            } else {
                None
            }
        } else {
            Some(span_end(s, i, CharClass::Word))
        }
    } else {
        None
    }
}

/// group := "(" assignment ("," assignment)* ")" | "(" value ("," value)* ")"
pub open spec fn group_end(s: Seq<char>, i: int) -> Option<int>
    decreases s.len() - i, 1nat,
{
    if 0 <= i < s.len() {
        if opens_struct(s, i) {
            entries_end(s, i + 1)
        } else {
            items_end(s, i + 1)
        }
    } else {
        None
    }
}

/// The rest of an array from `pos`: a value, then `,` and more, or `)`.
pub open spec fn items_end(s: Seq<char>, pos: int) -> Option<int>
    decreases s.len() - pos + 1, 0nat,
{
    if pos < 0 || pos > s.len() {
        None
    } else {
        let p = ws(s, pos);
        match value_end(s, p) {
            None => None,
            Some(q) => {
                let r = ws(s, q);
                if q <= p || q > s.len() {
                    None
                } else if r < s.len() && s[r] == ',' {
                    items_end(s, r + 1)
                } else if r < s.len() && s[r] == ')' {
                    Some(r + 1)
                } else {
                    None
                }
            },
        }
    }
}

/// Where the values of the rest of an array from `pos` start, in order.
pub open spec fn item_starts(s: Seq<char>, pos: int) -> Seq<int>
    decreases s.len() - pos + 1,
{
    if pos < 0 || pos > s.len() {
        Seq::empty()
    } else {
        let p = ws(s, pos);
        match value_end(s, p) {
            None => Seq::empty(),
            Some(q) => {
                let r = ws(s, q);
                if q <= p || q > s.len() {
                    Seq::empty()
                } else if r < s.len() && s[r] == ',' {
                    seq![p] + item_starts(s, r + 1)
                } else if r < s.len() && s[r] == ')' {
                    seq![p]
                } else {
                    Seq::empty()
                }
            },
        }
    }
}

/// The rest of a struct from `pos`: an assignment, then `,` and more, or `)`.
pub open spec fn entries_end(s: Seq<char>, pos: int) -> Option<int>
    decreases s.len() - pos + 1, 0nat,
{
    if pos < 0 || pos > s.len() {
        None
    } else {
        let p = ws(s, pos);
        match assignment_end(s, p) {
            None => None,
            Some(q) => {
                let r = ws(s, q);
                if q <= p || q > s.len() {
                    None
                } else if r < s.len() && s[r] == ',' {
                    entries_end(s, r + 1)
                } else if r < s.len() && s[r] == ')' {
                    Some(r + 1)
                } else {
                    None
                }
            },
        }
    }
}

/// Where the assignments of the rest of a struct from `pos` start, in order.
pub open spec fn entry_starts(s: Seq<char>, pos: int) -> Seq<int>
    decreases s.len() - pos + 1,
{
    if pos < 0 || pos > s.len() {
        Seq::empty()
    } else {
        let p = ws(s, pos);
        match assignment_end(s, p) {
            None => Seq::empty(),
            Some(q) => {
                let r = ws(s, q);
                if q <= p || q > s.len() {
                    Seq::empty()
                } else if r < s.len() && s[r] == ',' {
                    seq![p] + entry_starts(s, r + 1)
                } else if r < s.len() && s[r] == ')' {
                    seq![p]
                } else {
                    Seq::empty()
                }
            },
        }
    }
}

/// Among the assignments at `starts`, where the last one to `name` starts.
pub open spec fn last_named(s: Seq<char>, starts: Seq<int>, name: Seq<char>) -> Option<int>
    decreases starts.len(),
{
    if starts.len() == 0 {
        None
    } else {
        let q = starts.last();
        if s.subrange(q, run(s, q, CharClass::Ident)) == name {
            Some(q)
        } else {
            last_named(s, starts.drop_last(), name)
        }
    }
}

/// `[` index `]` at `m`, and the spaces after it.
pub open spec fn index_end(s: Seq<char>, m: int) -> Option<int> {
    let a = iws(s, m + 1);
    let b = sign_end(s, a);
    let d = span_end(s, b, CharClass::Digit);
    if a >= s.len() || d == b || !fits_i32(int_value(s, a, d)) {
        None
    } else {
        let c = iws(s, d);
        if c >= s.len() || s[c] != ']' {
            None
        } else {
            Some(iws(s, c + 1))
        }
    }
}

/// Where the `=` of the assignment at `i` is to stand: after the name and
/// any `[index]`; `None` where the index is malformed.
pub open spec fn equals_pos(s: Seq<char>, i: int) -> Option<int> {
    let m0 = iws(s, run(s, i, CharClass::Ident));
    if m0 < s.len() && s[m0] == '[' {
        index_end(s, m0)
    } else {
        Some(m0)
    }
}

/// The index of the assignment at `i`, if it has one.
pub open spec fn index_value(s: Seq<char>, i: int) -> Option<i32> {
    let m0 = iws(s, run(s, i, CharClass::Ident));
    if m0 < s.len() && s[m0] == '[' {
        let a = iws(s, m0 + 1);
        Some(int_value(s, a, span_end(s, sign_end(s, a), CharClass::Digit)) as i32)
    } else {
        None
    }
}

/// Where the value of the assignment at `i` starts: past `=` and spaces.
pub open spec fn value_start(s: Seq<char>, i: int) -> int {
    iws(s, equals_pos(s, i)->0 + 1)
}

/// Nothing of a value stands at `v`: the line, the group or the input ends.
pub open spec fn no_value_at(s: Seq<char>, v: int) -> bool {
    v >= s.len() || s[v] == '\n' || s[v] == '\r' || s[v] == ',' || s[v] == ')'
}

/// assignment := name ["[" int "]"] "=" [value], the value on the same line
pub open spec fn assignment_end(s: Seq<char>, i: int) -> Option<int>
    decreases s.len() - i, 2nat,
{
    if !(0 <= i < s.len() && is_ident_start(s[i])) {
        None
    } else {
        match equals_pos(s, i) {
            None => None,
            Some(m) => {
                if m >= s.len() || s[m] != '=' || m < i {
                    None
                } else {
                    let v = iws(s, m + 1);
                    if no_value_at(s, v) {
                        Some(v)
                    } else {
                        value_end(s, v)
                    }
                }
            },
        }
    }
}

/// vector := number "," number "," number
pub open spec fn vector_end(s: Seq<char>, i: int) -> Option<int> {
    if !has_number(s, i) {
        None
    } else {
        let b = iws(s, number_end(s, i));
        if b >= s.len() || s[b] != ',' {
            None
        } else {
            let c = iws(s, b + 1);
            if !has_number(s, c) {
                None
            } else {
                let e = iws(s, number_end(s, c));
                if e >= s.len() || s[e] != ',' {
                    None
                } else {
                    let f = iws(s, e + 1);
                    if !has_number(s, f) {
                        None
                    } else {
                        Some(number_end(s, f))
                    }
                }
            }
        }
    }
}

/// object := "Begin" name statement* "End" name, with the same name twice
pub open spec fn object_end(s: Seq<char>, i: int) -> Option<int>
    decreases s.len() - i + 1, 0nat,
{
    if !(0 <= i < s.len() && is_ident_start(s[i])) {
        None
    } else {
        let k = run(s, i, CharClass::Ident);
        let m = ws(s, k);
        if s.subrange(i, k) != "Begin"@ || m == k || !(m < s.len() && is_ident_start(s[m])) {
            None
        } else {
            let p = run(s, m, CharClass::Ident);
            if p <= i || p > s.len() {
                None
            } else {
                statements_end(s, p, s.subrange(m, p))
            }
        }
    }
}

/// The statements of a block of type `ty` from `pos`, through its `End ty`.
pub open spec fn statements_end(s: Seq<char>, pos: int, ty: Seq<char>) -> Option<int>
    decreases s.len() - pos + 1, 1nat,
{
    if pos < 0 || pos > s.len() {
        None
    } else {
        let q = ws(s, pos);
        if !(q < s.len() && is_ident_start(s[q])) {
            None
        } else {
            let wk = run(s, q, CharClass::Ident);
            let wm = iws(s, wk);
            if wm < s.len() && (s[wm] == '=' || s[wm] == '[') {
                match assignment_end(s, q) {
                    Some(e) => if e <= pos || e > s.len() {
                        None
                    } else {
                        statements_end(s, e, ty)
                    },
                    None => None,
                }
            } else if s.subrange(q, wk) == "Begin"@ {
                match object_end(s, q) {
                    Some(e) => if e <= pos || e > s.len() {
                        None
                    } else {
                        statements_end(s, e, ty)
                    },
                    None => None,
                }
            } else if s.subrange(q, wk) == "End"@ {
                if wm == wk || !(wm < s.len() && is_ident_start(s[wm])) {
                    None
                } else {
                    let e = run(s, wm, CharClass::Ident);
                    if s.subrange(wm, e) == ty {
                        Some(e)
                    } else {
                        None
                    }
                }
            } else if wm > wk {
                match vector_end(s, wm) {
                    Some(e) => if e <= pos || e > s.len() {
                        None
                    } else {
                        statements_end(s, e, ty)
                    },
                    None => None,
                }
            } else {
                None
            }
        }
    }
}

/// Where the second number of a vector at `i` starts.
pub open spec fn second_start(s: Seq<char>, i: int) -> int {
    iws(s, iws(s, number_end(s, i)) + 1)
}

/// Where the third number of a vector at `i` starts.
pub open spec fn third_start(s: Seq<char>, i: int) -> int {
    let c = second_start(s, i);
    iws(s, iws(s, number_end(s, c)) + 1)
}

/// The text of the number at `i`.
pub open spec fn number_text(s: Seq<char>, i: int) -> Seq<char> {
    s.subrange(i, number_end(s, i))
}

/// A vector statement as text: its name and its three numbers.
pub type VectorText = (Seq<char>, Seq<char>, Seq<char>, Seq<char>);

/// The type name of the block at `i`: the name after `Begin`.
pub open spec fn block_type(s: Seq<char>, i: int) -> Seq<char> {
    let m = ws(s, run(s, i, CharClass::Ident));
    s.subrange(m, run(s, m, CharClass::Ident))
}

/// The vector statements of a block from `pos` on, in source order.
pub open spec fn block_vectors(s: Seq<char>, pos: int, ty: Seq<char>) -> Seq<VectorText>
    decreases s.len() - pos + 1,
{
    if pos < 0 || pos > s.len() {
        Seq::empty()
    } else {
        let q = ws(s, pos);
        if !(q < s.len() && is_ident_start(s[q])) {
            Seq::empty()
        } else {
            let wk = run(s, q, CharClass::Ident);
            let wm = iws(s, wk);
            if wm < s.len() && (s[wm] == '=' || s[wm] == '[') {
                match assignment_end(s, q) {
                    Some(e) => if e <= pos || e > s.len() {
                        Seq::empty()
                    } else {
                        block_vectors(s, e, ty)
                    },
                    None => Seq::empty(),
                }
            } else if s.subrange(q, wk) == "Begin"@ {
                match object_end(s, q) {
                    Some(e) => if e <= pos || e > s.len() {
                        Seq::empty()
                    } else {
                        block_vectors(s, e, ty)
                    },
                    None => Seq::empty(),
                }
            } else if s.subrange(q, wk) == "End"@ {
                Seq::empty()
            } else if wm > wk {
                match vector_end(s, wm) {
                    Some(e) => if e <= pos || e > s.len() {
                        Seq::empty()
                    } else {
                        seq![
                            (
                                s.subrange(q, wk),
                                number_text(s, wm),
                                number_text(s, second_start(s, wm)),
                                number_text(s, third_start(s, wm)),
                            ),
                        ] + block_vectors(s, e, ty)
                    },
                    None => Seq::empty(),
                }
            } else {
                Seq::empty()
            }
        }
    }
}

/// The type names of the blocks nested in a block from `pos` on, in source order.
pub open spec fn block_children(s: Seq<char>, pos: int, ty: Seq<char>) -> Seq<Seq<char>>
    decreases s.len() - pos + 1,
{
    if pos < 0 || pos > s.len() {
        Seq::empty()
    } else {
        let q = ws(s, pos);
        if !(q < s.len() && is_ident_start(s[q])) {
            Seq::empty()
        } else {
            let wk = run(s, q, CharClass::Ident);
            let wm = iws(s, wk);
            if wm < s.len() && (s[wm] == '=' || s[wm] == '[') {
                match assignment_end(s, q) {
                    Some(e) => if e <= pos || e > s.len() {
                        Seq::empty()
                    } else {
                        block_children(s, e, ty)
                    },
                    None => Seq::empty(),
                }
            } else if s.subrange(q, wk) == "Begin"@ {
                match object_end(s, q) {
                    Some(e) => if e <= pos || e > s.len() {
                        Seq::empty()
                    } else {
                        seq![block_type(s, q)] + block_children(s, e, ty)
                    },
                    None => Seq::empty(),
                }
            } else if s.subrange(q, wk) == "End"@ {
                Seq::empty()
            } else if wm > wk {
                match vector_end(s, wm) {
                    Some(e) => if e <= pos || e > s.len() {
                        Seq::empty()
                    } else {
                        block_children(s, e, ty)
                    },
                    None => Seq::empty(),
                }
            } else {
                Seq::empty()
            }
        }
    }
}

/// Where the blocks nested in a block from `pos` on start, in source order.
pub open spec fn child_starts(s: Seq<char>, pos: int, ty: Seq<char>) -> Seq<int>
    decreases s.len() - pos + 1,
{
    if pos < 0 || pos > s.len() {
        Seq::empty()
    } else {
        let q = ws(s, pos);
        if !(q < s.len() && is_ident_start(s[q])) {
            Seq::empty()
        } else {
            let wk = run(s, q, CharClass::Ident);
            let wm = iws(s, wk);
            if wm < s.len() && (s[wm] == '=' || s[wm] == '[') {
                match assignment_end(s, q) {
                    Some(e) => if e <= pos || e > s.len() {
                        Seq::empty()
                    } else {
                        child_starts(s, e, ty)
                    },
                    None => Seq::empty(),
                }
            } else if s.subrange(q, wk) == "Begin"@ {
                match object_end(s, q) {
                    Some(e) => if e <= pos || e > s.len() {
                        Seq::empty()
                    } else {
                        seq![q] + child_starts(s, e, ty)
                    },
                    None => Seq::empty(),
                }
            } else if s.subrange(q, wk) == "End"@ {
                Seq::empty()
            } else if wm > wk {
                match vector_end(s, wm) {
                    Some(e) => if e <= pos || e > s.len() {
                        Seq::empty()
                    } else {
                        child_starts(s, e, ty)
                    },
                    None => Seq::empty(),
                }
            } else {
                Seq::empty()
            }
        }
    }
}

/// The names assigned to by the property assignments of a block from `pos`
/// on, each with whether its first assignment there carries an index.
pub open spec fn block_properties(s: Seq<char>, pos: int, ty: Seq<char>) -> Map<Seq<char>, bool>
    decreases s.len() - pos + 1,
{
    if pos < 0 || pos > s.len() {
        Map::empty()
    } else {
        let q = ws(s, pos);
        if !(q < s.len() && is_ident_start(s[q])) {
            Map::empty()
        } else {
            let wk = run(s, q, CharClass::Ident);
            let wm = iws(s, wk);
            if wm < s.len() && (s[wm] == '=' || s[wm] == '[') {
                match assignment_end(s, q) {
                    Some(e) => if e <= pos || e > s.len() {
                        Map::empty()
                    } else {
                        block_properties(s, e, ty).insert(s.subrange(q, wk), s[wm] == '[')
                    },
                    None => Map::empty(),
                }
            } else if s.subrange(q, wk) == "Begin"@ {
                match object_end(s, q) {
                    Some(e) => if e <= pos || e > s.len() {
                        Map::empty()
                    } else {
                        block_properties(s, e, ty)
                    },
                    None => Map::empty(),
                }
            } else if s.subrange(q, wk) == "End"@ {
                Map::empty()
            } else if wm > wk {
                match vector_end(s, wm) {
                    Some(e) => if e <= pos || e > s.len() {
                        Map::empty()
                    } else {
                        block_properties(s, e, ty)
                    },
                    None => Map::empty(),
                }
            } else {
                Map::empty()
            }
        }
    }
}

/// Where the assignments to `name` in a block from `pos` on start, in order.
pub open spec fn block_assignments(s: Seq<char>, pos: int, ty: Seq<char>, name: Seq<char>) -> Seq<int>
    decreases s.len() - pos + 1,
{
    if pos < 0 || pos > s.len() {
        Seq::empty()
    } else {
        let q = ws(s, pos);
        if !(q < s.len() && is_ident_start(s[q])) {
            Seq::empty()
        } else {
            let wk = run(s, q, CharClass::Ident);
            let wm = iws(s, wk);
            if wm < s.len() && (s[wm] == '=' || s[wm] == '[') {
                match assignment_end(s, q) {
                    Some(e) => if e <= pos || e > s.len() {
                        Seq::empty()
                    } else {
                        (if s.subrange(q, wk) == name {
                            seq![q]
                        } else {
                            Seq::empty()
                        }) + block_assignments(s, e, ty, name)
                    },
                    None => Seq::empty(),
                }
            } else if s.subrange(q, wk) == "Begin"@ {
                match object_end(s, q) {
                    Some(e) => if e <= pos || e > s.len() {
                        Seq::empty()
                    } else {
                        block_assignments(s, e, ty, name)
                    },
                    None => Seq::empty(),
                }
            } else if s.subrange(q, wk) == "End"@ {
                Seq::empty()
            } else if wm > wk {
                match vector_end(s, wm) {
                    Some(e) => if e <= pos || e > s.len() {
                        Seq::empty()
                    } else {
                        block_assignments(s, e, ty, name)
                    },
                    None => Seq::empty(),
                }
            } else {
                Seq::empty()
            }
        }
    }
}

/// The names assigned to by the property assignments of a block from `pos`
/// on, each with where its first assignment there starts.
pub open spec fn block_first_starts(s: Seq<char>, pos: int, ty: Seq<char>) -> Map<Seq<char>, int>
    decreases s.len() - pos + 1,
{
    if pos < 0 || pos > s.len() {
        Map::empty()
    } else {
        let q = ws(s, pos);
        if !(q < s.len() && is_ident_start(s[q])) {
            Map::empty()
        } else {
            let wk = run(s, q, CharClass::Ident);
            let wm = iws(s, wk);
            if wm < s.len() && (s[wm] == '=' || s[wm] == '[') {
                match assignment_end(s, q) {
                    Some(e) => if e <= pos || e > s.len() {
                        Map::empty()
                    } else {
                        block_first_starts(s, e, ty).insert(s.subrange(q, wk), q)
                    },
                    None => Map::empty(),
                }
            } else if s.subrange(q, wk) == "Begin"@ {
                match object_end(s, q) {
                    Some(e) => if e <= pos || e > s.len() {
                        Map::empty()
                    } else {
                        block_first_starts(s, e, ty)
                    },
                    None => Map::empty(),
                }
            } else if s.subrange(q, wk) == "End"@ {
                Map::empty()
            } else if wm > wk {
                match vector_end(s, wm) {
                    Some(e) => if e <= pos || e > s.len() {
                        Map::empty()
                    } else {
                        block_first_starts(s, e, ty)
                    },
                    None => Map::empty(),
                }
            } else {
                Map::empty()
            }
        }
    }
}

/// The blocks from `pos` to the end of the input, separated by whitespace.
pub open spec fn blocks_from(s: Seq<char>, pos: int) -> bool
    decreases s.len() - pos,
{
    if pos < 0 || pos > s.len() {
        false
    } else {
        let q = ws(s, pos);
        if q == s.len() {
            true
        } else {
            match object_end(s, q) {
                Some(e) => e > pos && e <= s.len() && blocks_from(s, e),
                None => false,
            }
        }
    }
}

/// The type names of the top-level blocks from `pos` on, in source order.
pub open spec fn block_types_from(s: Seq<char>, pos: int) -> Seq<Seq<char>>
    decreases s.len() - pos,
{
    if pos < 0 || pos > s.len() {
        Seq::empty()
    } else {
        let q = ws(s, pos);
        if q == s.len() {
            Seq::empty()
        } else {
            match object_end(s, q) {
                Some(e) => if e > pos && e <= s.len() {
                    seq![block_type(s, q)] + block_types_from(s, e)
                } else {
                    Seq::empty()
                },
                None => Seq::empty(),
            }
        }
    }
}

/// Where the top-level blocks from `pos` on start, in source order.
pub open spec fn block_starts_from(s: Seq<char>, pos: int) -> Seq<int>
    decreases s.len() - pos,
{
    if pos < 0 || pos > s.len() {
        Seq::empty()
    } else {
        let q = ws(s, pos);
        if q == s.len() {
            Seq::empty()
        } else {
            match object_end(s, q) {
                Some(e) => if e > pos && e <= s.len() {
                    seq![q] + block_starts_from(s, e)
                } else {
                    Seq::empty()
                },
                None => Seq::empty(),
            }
        }
    }
}

/// Where reading the block at `i` goes wrong: at `i` where its `Begin Type`
/// header is not there, else where its first statement that is not one
/// starts (within a nested block, where that block goes wrong).
pub open spec fn object_fail(s: Seq<char>, i: int) -> int
    decreases s.len() - i + 1, 0nat,
{
    if !(0 <= i < s.len() && is_ident_start(s[i])) {
        i
    } else {
        let k = run(s, i, CharClass::Ident);
        let m = ws(s, k);
        if s.subrange(i, k) != "Begin"@ || m == k || !(m < s.len() && is_ident_start(s[m])) {
            i
        } else {
            let p = run(s, m, CharClass::Ident);
            if p <= i || p > s.len() {
                i
            } else {
                statements_fail(s, p, s.subrange(m, p))
            }
        }
    }
}

/// Where the statements of a block of type `ty` from `pos` on first go wrong.
pub open spec fn statements_fail(s: Seq<char>, pos: int, ty: Seq<char>) -> int
    decreases s.len() - pos + 1, 1nat,
{
    if pos < 0 || pos > s.len() {
        pos
    } else {
        let q = ws(s, pos);
        if !(q < s.len() && is_ident_start(s[q])) {
            q
        } else {
            let wk = run(s, q, CharClass::Ident);
            let wm = iws(s, wk);
            if wm < s.len() && (s[wm] == '=' || s[wm] == '[') {
                match assignment_end(s, q) {
                    Some(e) => if e <= pos || e > s.len() {
                        q
                    } else {
                        statements_fail(s, e, ty)
                    },
                    None => q,
                }
            } else if s.subrange(q, wk) == "Begin"@ {
                match object_end(s, q) {
                    Some(e) => if e <= pos || e > s.len() {
                        q
                    } else {
                        statements_fail(s, e, ty)
                    },
                    None => object_fail(s, q),
                }
            } else if s.subrange(q, wk) == "End"@ {
                q
            } else if wm > wk {
                match vector_end(s, wm) {
                    Some(e) => if e <= pos || e > s.len() {
                        q
                    } else {
                        statements_fail(s, e, ty)
                    },
                    None => q,
                }
            } else {
                q
            }
        }
    }
}

/// Where the first top-level block from `pos` on that is not a whole
/// block goes wrong (the end of the input where there is none).
pub open spec fn failure_from(s: Seq<char>, pos: int) -> int
    decreases s.len() - pos,
{
    if pos < 0 || pos > s.len() {
        pos
    } else {
        let q = ws(s, pos);
        if q == s.len() {
            q
        } else {
            match object_end(s, q) {
                Some(e) => if e > pos && e <= s.len() {
                    failure_from(s, e)
                } else {
                    q
                },
                None => object_fail(s, q),
            }
        }
    }
}

/// Where a value at `i` that does not parse stops, and what was expected there.
pub open spec fn value_err(s: Seq<char>, i: int) -> (int, T3dExpected)
    decreases s.len() - i, 2nat,
{
    if i < 0 || i >= s.len() {
        (i, T3dExpected::Value)
    } else if s[i] == '(' {
        group_err(s, i)
    } else if s[i] == '"' {
        (span_end(s, i + 1, CharClass::NotDoubleQuote), T3dExpected::ClosingQuote)
    } else if is_digit(s[i]) || s[i] == '+' || s[i] == '-' {
        if number_token(s, i) {
            (i, T3dExpected::IntRange)
        } else {
            (i, T3dExpected::Value)
        }
    } else if is_ident_start(s[i]) {
        let k = run(s, i, CharClass::Ident);
        (span_end(s, k + 1, CharClass::NotQuote), T3dExpected::ClosingQuote)
    } else {
        (i, T3dExpected::Value)
    }
}

/// Where a group at `i` that does not parse stops.
pub open spec fn group_err(s: Seq<char>, i: int) -> (int, T3dExpected)
    decreases s.len() - i, 1nat,
{
    if opens_struct(s, i) {
        entries_err(s, i + 1)
    } else {
        items_err(s, i + 1)
    }
}

/// Where the rest of an array from `pos` that does not parse stops.
pub open spec fn items_err(s: Seq<char>, pos: int) -> (int, T3dExpected)
    decreases s.len() - pos + 1, 0nat,
{
    if pos < 0 || pos > s.len() {
        (pos, T3dExpected::Value)
    } else {
        let p = ws(s, pos);
        match value_end(s, p) {
            None => value_err(s, p),
            Some(q) => {
                let r = ws(s, q);
                if q <= p || q > s.len() {
                    (p, T3dExpected::Value)
                } else if r < s.len() && s[r] == ',' {
                    items_err(s, r + 1)
                } else {
                    (r, T3dExpected::CloseParen)
                }
            },
        }
    }
}

/// Where the rest of a struct from `pos` that does not parse stops.
pub open spec fn entries_err(s: Seq<char>, pos: int) -> (int, T3dExpected)
    decreases s.len() - pos + 1, 0nat,
{
    if pos < 0 || pos > s.len() {
        (pos, T3dExpected::Value)
    } else {
        let p = ws(s, pos);
        match assignment_end(s, p) {
            None => assignment_err(s, p),
            Some(q) => {
                let r = ws(s, q);
                if q <= p || q > s.len() {
                    (p, T3dExpected::Value)
                } else if r < s.len() && s[r] == ',' {
                    entries_err(s, r + 1)
                } else {
                    (r, T3dExpected::CloseParen)
                }
            },
        }
    }
}

/// Where a malformed `[index]` at `m` stops.
pub open spec fn index_err(s: Seq<char>, m: int) -> (int, T3dExpected) {
    let a = iws(s, m + 1);
    let b = sign_end(s, a);
    let d = span_end(s, b, CharClass::Digit);
    if a >= s.len() || d == b {
        (a, T3dExpected::Index)
    } else if !fits_i32(int_value(s, a, d)) {
        (a, T3dExpected::IntRange)
    } else {
        (iws(s, d), T3dExpected::CloseBracket)
    }
}

/// Where an assignment at `i` that does not parse stops.
pub open spec fn assignment_err(s: Seq<char>, i: int) -> (int, T3dExpected)
    decreases s.len() - i, 2nat,
{
    if !(0 <= i < s.len() && is_ident_start(s[i])) {
        (i, T3dExpected::Identifier)
    } else {
        let m0 = iws(s, run(s, i, CharClass::Ident));
        match equals_pos(s, i) {
            None => index_err(s, m0),
            Some(m) => if m >= s.len() || s[m] != '=' || m < i {
                (m, T3dExpected::Equals)
            } else {
                value_err(s, iws(s, m + 1))
            },
        }
    }
}

/// Where a malformed vector at `i` stops.
pub open spec fn vector_err(s: Seq<char>, i: int) -> (int, T3dExpected) {
    let b = iws(s, number_end(s, i));
    let c = iws(s, b + 1);
    let e = iws(s, number_end(s, c));
    let f = iws(s, e + 1);
    if !has_number(s, i) {
        (i, T3dExpected::Number)
    } else if b >= s.len() || s[b] != ',' {
        (b, T3dExpected::Comma)
    } else if !has_number(s, c) {
        (c, T3dExpected::Number)
    } else if e >= s.len() || s[e] != ',' {
        (e, T3dExpected::Comma)
    } else {
        (f, T3dExpected::Number)
    }
}

/// Where a block at `i` that does not parse stops.
pub open spec fn object_err(s: Seq<char>, i: int) -> (int, T3dExpected)
    decreases s.len() - i + 1, 0nat,
{
    if !(0 <= i < s.len() && is_ident_start(s[i])) {
        (i, T3dExpected::Begin)
    } else {
        let k = run(s, i, CharClass::Ident);
        let m = ws(s, k);
        if s.subrange(i, k) != "Begin"@ {
            (i, T3dExpected::Begin)
        } else if m == k || !(m < s.len() && is_ident_start(s[m])) {
            (m, T3dExpected::Identifier)
        } else {
            let p = run(s, m, CharClass::Ident);
            if p <= i || p > s.len() {
                (i, T3dExpected::Begin)
            } else {
                statements_err(s, p, s.subrange(m, p))
            }
        }
    }
}

/// Where the statements of a block of type `ty` from `pos` stop parsing.
pub open spec fn statements_err(s: Seq<char>, pos: int, ty: Seq<char>) -> (int, T3dExpected)
    decreases s.len() - pos + 1, 1nat,
{
    if pos < 0 || pos > s.len() {
        (pos, T3dExpected::Statement)
    } else {
        let q = ws(s, pos);
        if !(q < s.len() && is_ident_start(s[q])) {
            (q, T3dExpected::Statement)
        } else {
            let wk = run(s, q, CharClass::Ident);
            let wm = iws(s, wk);
            if wm < s.len() && (s[wm] == '=' || s[wm] == '[') {
                match assignment_end(s, q) {
                    Some(e) => if e <= pos || e > s.len() {
                        (q, T3dExpected::Statement)
                    } else {
                        statements_err(s, e, ty)
                    },
                    None => assignment_err(s, q),
                }
            } else if s.subrange(q, wk) == "Begin"@ {
                match object_end(s, q) {
                    Some(e) => if e <= pos || e > s.len() {
                        (q, T3dExpected::Statement)
                    } else {
                        statements_err(s, e, ty)
                    },
                    None => object_err(s, q),
                }
            } else if s.subrange(q, wk) == "End"@ {
                (wm, T3dExpected::EndName)
            } else if wm > wk {
                match vector_end(s, wm) {
                    Some(e) => if e <= pos || e > s.len() {
                        (q, T3dExpected::Statement)
                    } else {
                        statements_err(s, e, ty)
                    },
                    None => (wm, T3dExpected::Statement),
                }
            } else {
                (wm, T3dExpected::Statement)
            }
        }
    }
}

/// Where a text that is not a document stops parsing.
pub open spec fn blocks_err(s: Seq<char>, pos: int) -> (int, T3dExpected)
    decreases s.len() - pos,
{
    if pos < 0 || pos > s.len() {
        (pos, T3dExpected::Begin)
    } else {
        let q = ws(s, pos);
        match object_end(s, q) {
            Some(e) => if e > pos && e <= s.len() {
                blocks_err(s, e)
            } else {
                (q, T3dExpected::Begin)
            },
            None => object_err(s, q),
        }
    }
}

/// The text is a T3D document: top-level blocks and whitespace only.
pub open spec fn is_document(s: Seq<char>) -> bool {
    blocks_from(s, 0)
}

} // verus!
