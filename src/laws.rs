use vstd::prelude::*;

use crate::actionscript::{
    brace_end, class_keyword, class_model, extends_keyword, find_terminator, function_at,
    function_keyword, ident_after, implements_keyword, locate, locate_from, next_is_function,
    scan, static_function_start, static_keyword, with_static,
};
use crate::bytes::{
    find_byte, keyword_at, lemma_skip_spaces_bounds, skip_spaces, CLOSE_BRACE, CLOSE_PAREN,
    OPEN_BRACE, OPEN_PAREN,
};
use crate::model::FunctionView;

verus! {

/// The brace depth of `s[from..i]`: opening braces less closing ones.
pub open spec fn depth(s: Seq<u8>, from: int, i: int) -> int
    decreases i - from,
{
    if i <= from {
        0
    } else {
        depth(s, from, i - 1) + if s[i - 1] == OPEN_BRACE {
            1int
        } else if s[i - 1] == CLOSE_BRACE {
            -1int
        } else {
            0int
        }
    }
}

/// Whether a function declaration, static or not, starts at `o`.
pub open spec fn declaration_at(s: Seq<u8>, o: int) -> bool {
    (keyword_at(s, o, static_keyword()) && next_is_function(s, o + 6)) || keyword_at(s, o, function_keyword())
}

/// The end offset and the function of the declaration that starts at `o`.
pub open spec fn declared(s: Seq<u8>, o: int) -> (int, FunctionView) {
    if keyword_at(s, o, static_keyword()) && next_is_function(s, o + 6) {
        let f = function_at(s, static_function_start(s, o));
        (f.0, with_static(f.1))
    } else {
        function_at(s, o + 8)
    }
}

proof fn lemma_inside_body(s: Seq<u8>, b: int, k: int, i: int)
    requires
        0 <= b < i < k <= s.len(),
        depth(s, b, k) == 0,
        forall|j: int| b < j < k ==> depth(s, b, j) >= 1,
    ensures
        brace_end(s, i, depth(s, b, i)) == k,
    decreases k - i,
{
    assert(depth(s, b, i + 1) == depth(s, b, i) + if s[i] == OPEN_BRACE {
        1int
    } else if s[i] == CLOSE_BRACE {
        -1int
    } else {
        0int
    });
    assert(depth(s, b, i) >= 1);
    if i + 1 < k {
        assert(depth(s, b, i + 1) >= 1);
        lemma_inside_body(s, b, k, i + 1);
    }
}

proof fn lemma_before_body(s: Seq<u8>, from: int, b: int, k: int)
    requires
        0 <= from <= b < k <= s.len(),
        forall|j: int| from <= j < b ==> s[j] != OPEN_BRACE && s[j] != CLOSE_BRACE,
        brace_end(s, b, 0) == k,
    ensures
        brace_end(s, from, 0) == k,
    decreases b - from,
{
    if from < b {
        lemma_before_body(s, from + 1, b, k);
    }
}

/// A body ends exactly at the brace that closes its opening brace, however
/// deeply blocks nest inside it: when the bytes from where the brace scan
/// starts up to the opening brace at `b` hold no brace, and the depth counted
/// from `b` stays at least 1 until it first returns to 0 at `k`, the scan
/// ends at `k`, just past the closing brace.
pub proof fn lemma_body_ends_at_matching_brace(s: Seq<u8>, from: int, b: int, k: int)
    requires
        0 <= from <= b < k <= s.len(),
        forall|j: int| from <= j < b ==> s[j] != OPEN_BRACE && s[j] != CLOSE_BRACE,
        s[b] == OPEN_BRACE,
        depth(s, b, k) == 0,
        forall|j: int| b < j < k ==> depth(s, b, j) >= 1,
    ensures
        brace_end(s, from, 0) == k,
        s[k - 1] == CLOSE_BRACE,
{
    assert(depth(s, b, b + 1) == 1) by {
        assert(depth(s, b, b) == 0);
    }
    assert(b + 1 < k);
    lemma_inside_body(s, b, k, b + 1);
    lemma_before_body(s, from, b, k);
    assert(depth(s, b, k) == depth(s, b, k - 1) + if s[k - 1] == OPEN_BRACE {
        1int
    } else if s[k - 1] == CLOSE_BRACE {
        -1int
    } else {
        0int
    });
}

proof fn lemma_scan_skips(s: Seq<u8>, e: int, o: int)
    requires
        0 <= e <= o <= s.len(),
        forall|k: int| e <= k < o ==> !declaration_at(s, k),
    ensures
        scan(s, e) == scan(s, o),
    decreases o - e,
{
    if e < o {
        assert(!declaration_at(s, e));
        crate::actionscript::lemma_scan_step(s, e);
        lemma_scan_skips(s, e + 1, o);
    }
}

proof fn lemma_scan_declaration(s: Seq<u8>, o: int)
    requires
        0 <= o < s.len(),
        declaration_at(s, o),
    ensures
        scan(s, o) == seq![declared(s, o).1] + scan(s, declared(s, o).0),
        o < declared(s, o).0 <= s.len(),
{
    if keyword_at(s, o, static_keyword()) && next_is_function(s, o + 6) {
        crate::bytes::lemma_skip_spaces_bounds(s, o + 6);
        crate::actionscript::lemma_function_end(s, static_function_start(s, o));
    } else {
        crate::actionscript::lemma_function_end(s, o + 8);
    }
}

/// Functions come out in the order of their declarations, static or not: a
/// declaration at `o1`, followed by one at `o2` with nothing declared between
/// the end of the first and `o2`, gives a sequence whose first two functions
/// are the first and then the second.
pub proof fn lemma_functions_in_source_order(s: Seq<u8>, o1: int, o2: int)
    requires
        0 <= o1,
        declaration_at(s, o1),
        declared(s, o1).0 <= o2 < s.len(),
        declaration_at(s, o2),
        forall|k: int| declared(s, o1).0 <= k < o2 ==> !declaration_at(s, k),
    ensures
        scan(s, o1).len() >= 2,
        scan(s, o1)[0] == declared(s, o1).1,
        scan(s, o1)[1] == declared(s, o2).1,
{
    lemma_scan_declaration(s, o1);
    lemma_scan_skips(s, declared(s, o1).0, o2);
    lemma_scan_declaration(s, o2);
}

/// The model depends on the source alone: two buffers with the same bytes
/// give the same model.
pub proof fn lemma_model_is_deterministic(a: Seq<u8>, b: Seq<u8>)
    requires
        a == b,
    ensures
        class_model(a) == class_model(b),
{
}

proof fn lemma_locate_absent(s: Seq<u8>, kw: Seq<u8>, i: int)
    requires
        forall|j: int| i <= j && j + kw.len() <= s.len() ==> #[trigger] s.subrange(j, j + kw.len()) != kw,
    ensures
        locate_from(s, kw, i) is None,
    decreases s.len() - i,
{
    if i >= 0 && i + kw.len() < s.len() {
        lemma_locate_absent(s, kw, i + 1);
    }
}

/// A header clause that does not occur after the class name is an empty
/// field, not an error: when no `extends` begins at or after the offset where
/// the class name ends, the model's `extends` is empty, and likewise for
/// `implements`.
pub proof fn lemma_absent_clauses_are_empty(s: Seq<u8>)
    ensures
        (forall|i: int|
            locate(s, class_keyword(), 0).1 <= i && i + extends_keyword().len() <= s.len()
                ==> #[trigger] s.subrange(i, i + extends_keyword().len()) != extends_keyword())
            ==> class_model(s).extends == Seq::<char>::empty(),
        (forall|i: int|
            locate(s, class_keyword(), 0).1 <= i && i + implements_keyword().len() <= s.len()
                ==> #[trigger] s.subrange(i, i + implements_keyword().len()) != implements_keyword())
            ==> class_model(s).implements == Seq::<char>::empty(),
{
    let h = locate(s, class_keyword(), 0).1;
    if forall|i: int|
        h <= i && i + extends_keyword().len() <= s.len()
            ==> #[trigger] s.subrange(i, i + extends_keyword().len()) != extends_keyword() {
        lemma_locate_absent(s, extends_keyword(), h);
    }
    if forall|i: int|
        h <= i && i + implements_keyword().len() <= s.len()
            ==> #[trigger] s.subrange(i, i + implements_keyword().len()) != implements_keyword() {
        lemma_locate_absent(s, implements_keyword(), h);
    }
}

/// The `)` that closes the argument list of the signature starting at `p`.
pub open spec fn args_close(s: Seq<u8>, p: int) -> int {
    find_byte(s, find_byte(s, p, OPEN_PAREN) + 1, CLOSE_PAREN)
}

/// A function ends exactly at the brace that closes its body, however deeply
/// blocks nest inside it: when the signature starting at `p` has both
/// parentheses, no brace stands between its `)` and the opening brace at `b`,
/// and the depth counted from `b` stays at least 1 until it first returns to
/// 0 at `k`, the function's end offset is `k`, just past the closing brace.
pub proof fn lemma_function_ends_at_matching_brace(s: Seq<u8>, p: int, b: int, k: int)
    requires
        0 <= p,
        find_byte(s, p, OPEN_PAREN) < s.len(),
        args_close(s, p) < b < k <= s.len(),
        forall|j: int| args_close(s, p) < j < b ==> s[j] != OPEN_BRACE && s[j] != CLOSE_BRACE,
        s[b] == OPEN_BRACE,
        depth(s, b, k) == 0,
        forall|j: int| b < j < k ==> depth(s, b, j) >= 1,
    ensures
        function_at(s, p).0 == k,
{
    crate::bytes::lemma_find_byte_bounds(s, p, OPEN_PAREN);
    crate::bytes::lemma_find_byte_bounds(s, find_byte(s, p, OPEN_PAREN) + 1, CLOSE_PAREN);
    lemma_body_ends_at_matching_brace(s, args_close(s, p) + 1, b, k);
}

proof fn lemma_find_terminator_bounds(s: Seq<u8>, i: int)
    ensures
        i <= find_terminator(s, i) || i > s.len(),
    decreases s.len() - i,
{
    if i < s.len() && !crate::actionscript::is_terminator(s[i]) {
        lemma_find_terminator_bounds(s, i + 1);
    }
}

proof fn lemma_locate_from_bounds(s: Seq<u8>, kw: Seq<u8>, i: int)
    ensures
        locate_from(s, kw, i) is Some ==> 0 <= locate_from(s, kw, i).unwrap().1,
    decreases s.len() - i,
{
    if i >= 0 && i + kw.len() < s.len() {
        let p = i + kw.len();
        lemma_skip_spaces_bounds(s, p);
        lemma_find_terminator_bounds(s, skip_spaces(s, p) + 1);
        lemma_locate_from_bounds(s, kw, i + 1);
    }
}

/// The model lists functions in the order of their declarations, static or
/// not: when the first declaration after the class name is at `o1`, and the
/// next one, after the end of the first, is at `o2`, the model's first two
/// functions are those two, in that order.
pub proof fn lemma_model_functions_in_source_order(s: Seq<u8>, o1: int, o2: int)
    requires
        locate(s, class_keyword(), 0).1 <= o1,
        forall|k: int| locate(s, class_keyword(), 0).1 <= k < o1 ==> !declaration_at(s, k),
        declaration_at(s, o1),
        declared(s, o1).0 <= o2 < s.len(),
        declaration_at(s, o2),
        forall|k: int| declared(s, o1).0 <= k < o2 ==> !declaration_at(s, k),
    ensures
        class_model(s).functions.len() >= 2,
        class_model(s).functions[0] == declared(s, o1).1,
        class_model(s).functions[1] == declared(s, o2).1,
{
    lemma_locate_from_bounds(s, class_keyword(), 0);
    let h = locate(s, class_keyword(), 0).1;
    assert(0 <= h);
    assert(o1 < s.len()) by {
        lemma_scan_declaration(s, o2);
    }
    lemma_scan_skips(s, h, o1);
    lemma_functions_in_source_order(s, o1, o2);
}

} // verus!
