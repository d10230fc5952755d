use vstd::prelude::*;
use vstd::slice::slice_subrange;

use crate::bytes::{
    find_byte, find_byte_from, keyword_at, lemma_find_byte_bounds,
    lemma_skip_spaces_bounds, matches_at, skip_spaces, skip_spaces_from, space_len_before,
    space_len_until, text, text_of, trim,
    trimmed, CARRIAGE_RETURN, CLOSE_BRACE, CLOSE_PAREN, COLON, COMMA, EQUALS, LINE_FEED,
    OPEN_BRACE, OPEN_PAREN, SEMICOLON, SPACE, TAB,
};
use crate::classify::{decode_arg, string_var_to_arg};
use crate::model::{
    lossy_string, utf8_lossy, Arg, ArgView, Class, ClassView, Function, FunctionView, Member,
};

verus! {

/// `class`, in bytes.
pub open spec fn class_keyword() -> Seq<u8> {
    seq![99u8, 108, 97, 115, 115]
}

/// `extends`, in bytes.
pub open spec fn extends_keyword() -> Seq<u8> {
    seq![101u8, 120, 116, 101, 110, 100, 115]
}

/// `implements`, in bytes.
pub open spec fn implements_keyword() -> Seq<u8> {
    seq![105u8, 109, 112, 108, 101, 109, 101, 110, 116, 115]
}

/// `static`, in bytes.
pub open spec fn static_keyword() -> Seq<u8> {
    seq![115u8, 116, 97, 116, 105, 99]
}

/// `function`, in bytes.
pub open spec fn function_keyword() -> Seq<u8> {
    seq![102u8, 117, 110, 99, 116, 105, 111, 110]
}

/// `var`, in bytes.
pub open spec fn var_keyword() -> Seq<u8> {
    seq![118u8, 97, 114]
}

/// The bytes that end an identifier after a keyword.
pub open spec fn is_terminator(b: u8) -> bool {
    b == SPACE || b == SEMICOLON || b == COMMA || b == COLON || b == EQUALS || b == OPEN_PAREN
        || b == CLOSE_PAREN || b == TAB || b == LINE_FEED || b == CARRIAGE_RETURN
}

/// The first index at or after `i` that holds a terminator, or the length.
pub open spec fn find_terminator(s: Seq<u8>, i: int) -> int
    decreases s.len() - i,
{
    if i >= s.len() {
        s.len() as int
    } else if is_terminator(s[i]) {
        i
    } else {
        find_terminator(s, i + 1)
    }
}

/// The identifier that follows position `p`: it starts at the first byte
/// that is no space and ends before the next terminator after that byte.
/// `None` when the buffer ends first.
pub open spec fn ident_after(s: Seq<u8>, p: int) -> Option<(int, int)> {
    let start = skip_spaces(s, p);
    let end = find_terminator(s, start + 1);
    if start < s.len() && end < s.len() {
        Some((start, end))
    } else {
        None
    }
}

/// The span of the identifier after the first occurrence of `kw` at or
/// after `i` that is followed by a terminated identifier.
pub open spec fn locate_from(s: Seq<u8>, kw: Seq<u8>, i: int) -> Option<(int, int)>
    decreases s.len() - i,
{
    if i < 0 || i + kw.len() >= s.len() {
        None
    } else if s.subrange(i, i + kw.len()) == kw && ident_after(s, i + kw.len()) is Some {
        ident_after(s, i + kw.len())
    } else {
        locate_from(s, kw, i + 1)
    }
}

/// The identifier after `kw`, searched from `start`, and the offset of its
/// terminator; an empty identifier and `start` itself when there is none.
pub open spec fn locate(s: Seq<u8>, kw: Seq<u8>, start: int) -> (Seq<char>, int) {
    match locate_from(s, kw, start) {
        Some((a, b)) => (text(s.subrange(a, b)), b),
        None => (Seq::empty(), start),
    }
}

/// The index just past the last whitespace character of `t[..j]`, or 0.
pub open spec fn after_last_space(t: Seq<u8>, j: int) -> int
    decreases j,
{
    if j <= 0 {
        0
    } else if space_len_before(t, j, 0) > 0 {
        j
    } else {
        after_last_space(t, j - 1)
    }
}

/// A function's name from the text between its keyword and its `(`: the
/// trimmed text, or its last whitespace-separated word.
pub open spec fn function_name(region: Seq<u8>) -> Seq<u8> {
    let t = trim(region);
    t.subrange(after_last_space(t, t.len() as int), t.len() as int)
}

/// The arguments of the comma-separated list `span[i..]`, each fragment trimmed.
pub open spec fn arg_list(span: Seq<u8>, i: int) -> Seq<ArgView>
    decreases span.len() - i,
{
    if i < 0 || i > span.len() {
        seq![]
    } else {
        let c = find_byte(span, i, COMMA);
        if c >= span.len() {
            seq![decode_arg(trim(span.subrange(i, span.len() as int)))]
        } else {
            proof {
                lemma_find_byte_bounds(span, i, COMMA);
            }
            seq![decode_arg(trim(span.subrange(i, c)))] + arg_list(span, c + 1)
        }
    }
}

/// Where a body ends: walking from `i` with brace depth `depth`, the index
/// after the first `}` that takes the depth below 1, or the length.
pub open spec fn brace_end(s: Seq<u8>, i: int, depth: int) -> int
    decreases s.len() - i,
{
    if i < 0 || i >= s.len() {
        s.len() as int
    } else if s[i] == OPEN_BRACE {
        brace_end(s, i + 1, depth + 1)
    } else if s[i] == CLOSE_BRACE {
        if depth - 1 < 1 {
            i + 1
        } else {
            brace_end(s, i + 1, depth - 1)
        }
    } else {
        brace_end(s, i + 1, depth)
    }
}

/// The function whose signature starts at `p` (just after its keyword), and
/// the offset where it ends. Without a `(` the name is empty; without a `)`
/// there are no arguments; either way the function runs to the buffer's end.
pub open spec fn function_at(s: Seq<u8>, p: int) -> (int, FunctionView) {
    let open = find_byte(s, p, OPEN_PAREN);
    let close = find_byte(s, open + 1, CLOSE_PAREN);
    if open >= s.len() {
        (s.len() as int, FunctionView { is_static: false, name: Seq::empty(), args: seq![], lines: seq![] })
    } else {
        let name = utf8_lossy(function_name(s.subrange(p, open)));
        if close >= s.len() {
            (s.len() as int, FunctionView { is_static: false, name, args: seq![], lines: seq![] })
        } else {
            let args = if close > open + 1 {
                arg_list(s.subrange(open + 1, close), 0)
            } else {
                seq![]
            };
            (brace_end(s, close + 1, 0), FunctionView { is_static: false, name, args, lines: seq![] })
        }
    }
}

/// Whether, past any spaces after `p`, the word `function` comes.
pub open spec fn next_is_function(s: Seq<u8>, p: int) -> bool {
    keyword_at(s, skip_spaces(s, p), function_keyword())
}

/// Whether, past any spaces after `p`, the word `var` comes.
pub open spec fn next_is_var(s: Seq<u8>, p: int) -> bool {
    keyword_at(s, skip_spaces(s, p), var_keyword())
}

/// Where the signature of a static function starting at `o` begins.
pub open spec fn static_function_start(s: Seq<u8>, o: int) -> int {
    skip_spaces(s, o + static_keyword().len()) + function_keyword().len()
}

pub open spec fn with_static(f: FunctionView) -> FunctionView {
    FunctionView { is_static: true, name: f.name, args: f.args, lines: f.lines }
}

/// The functions declared from offset `o` on, in source order.
pub open spec fn scan(s: Seq<u8>, o: int) -> Seq<FunctionView>
    decreases s.len() - o,
{
    if o < 0 || o >= s.len() {
        seq![]
    } else if keyword_at(s, o, static_keyword()) && next_is_function(s, o + static_keyword().len()) {
        let p = static_function_start(s, o);
        proof {
            lemma_skip_spaces_bounds(s, o + static_keyword().len());
            lemma_function_end(s, p);
        }
        seq![with_static(function_at(s, p).1)] + scan(s, function_at(s, p).0)
    } else if keyword_at(s, o, function_keyword()) {
        let p = o + function_keyword().len();
        proof {
            lemma_function_end(s, p);
        }
        seq![function_at(s, p).1] + scan(s, function_at(s, p).0)
    } else {
        scan(s, o + 1)
    }
}

/// The model of the first class declared in `s`.
pub open spec fn class_model(s: Seq<u8>) -> ClassView {
    let header = locate(s, class_keyword(), 0);
    ClassView {
        name: header.0,
        extends: locate(s, extends_keyword(), header.1).0,
        implements: locate(s, implements_keyword(), header.1).0,
        members: seq![],
        functions: scan(s, header.1),
    }
}

pub proof fn lemma_brace_end_bounds(s: Seq<u8>, i: int, depth: int)
    requires
        0 <= i <= s.len(),
    ensures
        i <= brace_end(s, i, depth) <= s.len(),
    decreases s.len() - i,
{
    if i < s.len() {
        lemma_brace_end_bounds(s, i + 1, depth + 1);
        lemma_brace_end_bounds(s, i + 1, depth - 1);
        lemma_brace_end_bounds(s, i + 1, depth);
    }
}

pub proof fn lemma_function_end(s: Seq<u8>, p: int)
    requires
        0 <= p < s.len(),
    ensures
        p < function_at(s, p).0 <= s.len(),
{
    let open = find_byte(s, p, OPEN_PAREN);
    lemma_find_byte_bounds(s, p, OPEN_PAREN);
    if open < s.len() {
        let close = find_byte(s, open + 1, CLOSE_PAREN);
        lemma_find_byte_bounds(s, open + 1, CLOSE_PAREN);
        if close < s.len() {
            lemma_brace_end_bounds(s, close + 1, 0);
        }
    }
}

proof fn lemma_scan_static(s: Seq<u8>, o: int)
    requires
        0 <= o < s.len(),
        keyword_at(s, o, static_keyword()),
        next_is_function(s, o + 6),
    ensures
        scan(s, o) == seq![with_static(function_at(s, static_function_start(s, o)).1)]
            + scan(s, function_at(s, static_function_start(s, o)).0),
{
}

proof fn lemma_scan_function(s: Seq<u8>, o: int)
    requires
        0 <= o < s.len(),
        !(keyword_at(s, o, static_keyword()) && next_is_function(s, o + 6)),
        keyword_at(s, o, function_keyword()),
    ensures
        scan(s, o) == seq![function_at(s, o + 8).1] + scan(s, function_at(s, o + 8).0),
{
}

pub proof fn lemma_scan_step(s: Seq<u8>, o: int)
    requires
        0 <= o < s.len(),
        !(keyword_at(s, o, static_keyword()) && next_is_function(s, o + 6)),
        !keyword_at(s, o, function_keyword()),
    ensures
        scan(s, o) == scan(s, o + 1),
{
}

/// The source of one class, held as raw bytes.
pub struct Actionscript {
    buffer: Vec<u8>,
}

impl View for Actionscript {
    type V = Seq<u8>;

    closed spec fn view(&self) -> Seq<u8> {
        self.buffer@
    }
}

impl Actionscript {
    /// Where the body that the brace scan enters at `from` ends.
    fn brace_scan(&self, from: usize) -> (r: usize)
        requires
            from <= self@.len(),
        ensures
            r as int == brace_end(self@, from as int, 0),
    {
        let buf = self.buffer.as_slice();
        let mut depth: usize = 0;
        let mut i: usize = from;
        while i < buf.len()
            invariant
                buf@ == self@,
                from <= i <= buf@.len(),
                depth <= i - from,
                brace_end(buf@, i as int, depth as int) == brace_end(buf@, from as int, 0),
            decreases buf@.len() - i,
        {
            if buf[i] == OPEN_BRACE {
                depth = depth + 1;
            } else if buf[i] == CLOSE_BRACE {
                if depth < 2 {
                    return i + 1;
                }
                depth = depth - 1;
            }
            i = i + 1;
        }
        buf.len()
    }

    /// The arguments of the comma-separated list `span`.
    fn parse_args(span: &[u8]) -> (r: Vec<Arg>)
        ensures
            r@.map_values(|a: Arg| a@) == arg_list(span@, 0),
    {
        let mut args: Vec<Arg> = Vec::new();
        let mut i: usize = 0;
        loop
            invariant
                i <= span@.len(),
                args@.map_values(|a: Arg| a@) + arg_list(span@, i as int) == arg_list(span@, 0),
            decreases span@.len() - i,
        {
            let c = find_byte_from(span, i, COMMA);
            proof {
                lemma_find_byte_bounds(span@, i as int, COMMA);
            }
            let arg = string_var_to_arg(trimmed(slice_subrange(span, i, c)));
            let ghost before = args@.map_values(|a: Arg| a@);
            args.push(arg);
            assert(args@.map_values(|a: Arg| a@) =~= before.push(arg@));
            if c >= span.len() {
                assert(arg_list(span@, i as int) == seq![arg@]);
                assert(args@.map_values(|a: Arg| a@) =~= before + arg_list(span@, i as int));
                return args;
            }
            assert(arg_list(span@, i as int) == seq![arg@] + arg_list(span@, c + 1));
            assert(args@.map_values(|a: Arg| a@) + arg_list(span@, c + 1) =~= before + arg_list(span@, i as int));
            i = c + 1;
        }
    }

    /// Reads the function whose signature starts at `offset`, just after its
    /// keyword, and returns where it ends together with the function.
    fn parse_function(&self, offset: usize) -> (r: (usize, Function))
        requires
            offset <= self@.len(),
        ensures
            (r.0 as int, r.1@) == function_at(self@, offset as int),
    {
        let buf = self.buffer.as_slice();
        let open = find_byte_from(buf, offset, OPEN_PAREN);
        proof {
            lemma_find_byte_bounds(buf@, offset as int, OPEN_PAREN);
        }
        if open >= buf.len() {
            let f = Function { is_static: false, name: String::new(), args: Vec::new(), lines: Vec::new() };
            assert(f@.args =~= seq![]);
            assert(f@.lines =~= seq![]);
            return (buf.len(), f);
        }
        let region = trimmed(slice_subrange(buf, offset, open));
        let mut j: usize = region.len();
        while j > 0 && space_len_until(region, j, 0) == 0
            invariant
                j <= region@.len(),
                after_last_space(region@, j as int) == after_last_space(region@, region@.len() as int),
            decreases j,
        {
            j = j - 1;
        }
        let function_name = lossy_string(slice_subrange(region, j, region.len()));
        let close = find_byte_from(buf, open + 1, CLOSE_PAREN);
        proof {
            lemma_find_byte_bounds(buf@, open + 1, CLOSE_PAREN);
        }
        if close >= buf.len() {
            let f = Function { is_static: false, name: function_name, args: Vec::new(), lines: Vec::new() };
            assert(f@.args =~= seq![]);
            assert(f@.lines =~= seq![]);
            return (buf.len(), f);
        }
        let args: Vec<Arg> = if close > open + 1 {
            Self::parse_args(slice_subrange(buf, open + 1, close))
        } else {
            let empty: Vec<Arg> = Vec::new();
            assert(empty@.map_values(|a: Arg| a@) =~= seq![]);
            empty
        };
        let end = self.brace_scan(close + 1);
        let f = Function { is_static: false, name: function_name, args, lines: Vec::new() };
        assert(f@.lines =~= seq![]);
        (end, f)
    }
}

impl Actionscript {
    /// Holds a copy of `buffer`.
    pub fn from_buffer(buffer: &[u8]) -> (r: Self)
        ensures
            r@ == buffer@,
    {
        Actionscript { buffer: vstd::slice::slice_to_vec(buffer) }
    }

    /// Holds `vec` itself.
    pub fn from_vector(vec: Vec<u8>) -> (r: Self)
        ensures
            r@ == vec@,
    {
        Actionscript { buffer: vec }
    }

    /// The model of the first class declared in the source.
    pub fn to_object(&self) -> (r: Class)
        ensures
            r@ == class_model(self@),
    {
        self.interpret()
    }

    fn interpret(&self) -> (r: Class)
        ensures
            r@ == class_model(self@),
    {
        let class_bytes: Vec<u8> = vec![99u8, 108, 97, 115, 115];
        let extends_bytes: Vec<u8> = vec![101u8, 120, 116, 101, 110, 100, 115];
        let implements_bytes: Vec<u8> = vec![105u8, 109, 112, 108, 101, 109, 101, 110, 116, 115];
        assert(class_bytes@ == class_keyword());
        assert(extends_bytes@ == extends_keyword());
        assert(implements_bytes@ == implements_keyword());
        let (name, offset) = self.find_unique_type(class_bytes.as_slice());
        let (extends, _) = self.find_unique_type_offset(extends_bytes.as_slice(), offset);
        let (implements, _) = self.find_unique_type_offset(implements_bytes.as_slice(), offset);
        let (functions, members) = self.parse(offset);
        let r = Class { name, extends, implements, members, functions };
        assert(r@.members =~= seq![]);
        r
    }

    /// Whether `b` ends an identifier that follows a keyword.
    fn is_not_valid_char(b: u8) -> (r: bool)
        ensures
            r == is_terminator(b),
    {
        b == SPACE || b == SEMICOLON || b == COMMA || b == COLON || b == EQUALS || b == OPEN_PAREN
            || b == CLOSE_PAREN || b == TAB || b == LINE_FEED || b == CARRIAGE_RETURN
    }

    fn find_unique_type(&self, keyword: &[u8]) -> (r: (String, usize))
        ensures
            (r.0@, r.1 as int) == locate(self@, keyword@, 0),
    {
        self.find_unique_type_offset(keyword, 0)
    }

    /// The identifier after the first occurrence of `keyword` at or after
    /// `buffer_offset`, and the offset of the byte that ends it.
    fn find_unique_type_offset(&self, keyword: &[u8], buffer_offset: usize) -> (r: (String, usize))
        ensures
            (r.0@, r.1 as int) == locate(self@, keyword@, buffer_offset as int),
    {
        let buf = self.buffer.as_slice();
        let mut i: usize = buffer_offset;
        while i < buf.len()
            invariant
                buf@ == self@,
                buffer_offset <= i,
                locate_from(buf@, keyword@, i as int) == locate_from(buf@, keyword@, buffer_offset as int),
            decreases buf@.len() - i,
        {
            if keyword.len() >= buf.len() - i {
                assert(locate_from(buf@, keyword@, i as int) is None);
                return (String::new(), buffer_offset);
            }
            if matches_at(buf, i, keyword) {
                let start = skip_spaces_from(buf, i + keyword.len());
                proof {
                    lemma_skip_spaces_bounds(buf@, i + keyword@.len());
                }
                if start < buf.len() {
                    let mut end: usize = start + 1;
                    while end < buf.len() && !Self::is_not_valid_char(buf[end])
                        invariant
                            start < end <= buf@.len(),
                            find_terminator(buf@, end as int) == find_terminator(buf@, start + 1),
                        decreases buf@.len() - end,
                    {
                        end = end + 1;
                    }
                    if end < buf.len() {
                        assert(ident_after(buf@, i + keyword@.len()) == Some((start as int, end as int)));
                        return (text_of(buf, start, end), end);
                    }
                }
                assert(ident_after(buf@, i + keyword@.len()) is None);
            }
            assert(locate_from(buf@, keyword@, i as int) == locate_from(buf@, keyword@, i + 1));
            i = i + 1;
        }
        assert(locate_from(buf@, keyword@, i as int) is None);
        (String::new(), buffer_offset)
    }

    /// Whether, past any spaces after `offset`, the word `function` comes.
    fn is_next_function(&self, offset: usize) -> (r: bool)
        ensures
            r == next_is_function(self@, offset as int),
    {
        let buf = self.buffer.as_slice();
        if offset >= buf.len() {
            return false;
        }
        let function_bytes: Vec<u8> = vec![102u8, 117, 110, 99, 116, 105, 111, 110];
        assert(function_bytes@ == function_keyword());
        let i = skip_spaces_from(buf, offset);
        proof {
            lemma_skip_spaces_bounds(buf@, offset as int);
        }
        matches_at(buf, i, function_bytes.as_slice())
    }

    /// Whether, past any spaces after `offset`, the word `var` comes.
    fn is_next_var(&self, offset: usize) -> (r: bool)
        ensures
            r == next_is_var(self@, offset as int),
    {
        let buf = self.buffer.as_slice();
        if offset >= buf.len() {
            return false;
        }
        let var_bytes: Vec<u8> = vec![118u8, 97, 114];
        assert(var_bytes@ == var_keyword());
        let i = skip_spaces_from(buf, offset);
        proof {
            lemma_skip_spaces_bounds(buf@, offset as int);
        }
        matches_at(buf, i, var_bytes.as_slice())
    }

    /// The functions and members declared from `buffer_offset` on, in source
    /// order. Field declarations are not read yet, so no member is returned.
    fn parse(&self, buffer_offset: usize) -> (r: (Vec<Function>, Vec<Member>))
        ensures
            r.0@.map_values(|f: Function| f@) == scan(self@, buffer_offset as int),
            r.1@.len() == 0,
    {
        let buf = self.buffer.as_slice();
        let static_bytes: Vec<u8> = vec![115u8, 116, 97, 116, 105, 99];
        let function_bytes: Vec<u8> = vec![102u8, 117, 110, 99, 116, 105, 111, 110];
        assert(static_bytes@ == static_keyword());
        assert(function_bytes@ == function_keyword());
        let mut functions_vec: Vec<Function> = Vec::new();
        let members_vec: Vec<Member> = Vec::new();
        let mut offset: usize = buffer_offset;
        assert(functions_vec@.map_values(|f: Function| f@) + scan(buf@, offset as int) =~= scan(buf@, buffer_offset as int));
        while offset < buf.len()
            invariant
                buf@ == self@,
                static_bytes@ == static_keyword(),
                function_bytes@ == function_keyword(),
                functions_vec@.map_values(|f: Function| f@) + scan(buf@, offset as int) == scan(buf@, buffer_offset as int),
            decreases buf@.len() - offset,
        {
            let ghost before = functions_vec@.map_values(|f: Function| f@);
            if matches_at(buf, offset, static_bytes.as_slice()) {
                if self.is_next_function(offset + 6) {
                    let start = skip_spaces_from(buf, offset + 6) + 8;
                    proof {
                        lemma_skip_spaces_bounds(buf@, offset + 6);
                        lemma_function_end(buf@, start as int);
                    }
                    let (end, mut func) = self.parse_function(start);
                    func.is_static = true;
                    functions_vec.push(func);
                    proof {
                        lemma_scan_static(buf@, offset as int);
                    }
                    assert(functions_vec@.map_values(|f: Function| f@) =~= before.push(func@));
                    assert(functions_vec@.map_values(|f: Function| f@) + scan(buf@, end as int) =~= before + scan(buf@, offset as int));
                    offset = end;
                    continue;
                }
                if self.is_next_var(offset + 6) {
                    // A field declaration: not modelled yet, so the scan steps over it.
                    assert(buf@[offset as int] == buf@.subrange(offset as int, offset + 6)[0]);
                    assert(!keyword_at(buf@, offset as int, function_keyword())) by {
                        if keyword_at(buf@, offset as int, function_keyword()) {
                            assert(buf@.subrange(offset as int, offset + 8)[0] == buf@[offset as int]);
                        }
                    }
                    proof {
                        lemma_scan_step(buf@, offset as int);
                    }
                    offset = offset + 1;
                    continue;
                }
            }
            if matches_at(buf, offset, function_bytes.as_slice()) {
                proof {
                    lemma_function_end(buf@, offset + 8);
                }
                let (end, func) = self.parse_function(offset + 8);
                functions_vec.push(func);
                proof {
                    lemma_scan_function(buf@, offset as int);
                }
                assert(functions_vec@.map_values(|f: Function| f@) =~= before.push(func@));
                assert(functions_vec@.map_values(|f: Function| f@) + scan(buf@, end as int) =~= before + scan(buf@, offset as int));
                offset = end;
                continue;
            }
            proof {
                lemma_scan_step(buf@, offset as int);
            }
            offset = offset + 1;
        }
        assert(scan(buf@, offset as int) =~= seq![]);
        assert(functions_vec@.map_values(|f: Function| f@) =~= scan(buf@, buffer_offset as int));
        (functions_vec, members_vec)
    }
}

} // verus!
