//! A small S-expression reader: a tokenizer and a recursive-descent parser
//! producing the expression tree that the surrounding application evaluates
//! into a field.
//!
//! The tokenizer is specified exactly: `spec_tokenize` is the mathematical
//! description of the token stream, including the trailing empty token the
//! parser relies on to detect unterminated forms. The parser's contracts
//! state token consumption and form balance; atoms are specified exactly.

use vstd::prelude::*;
use vstd::string::StrSliceExecFns;
use crate::shape::CsgFunc;

verus! {

/// A key of a parsed map: a string or a keyword.
pub enum KeyTy {
    Str(String),
    Keyword(String),
}

impl PartialEq for KeyTy {
    fn eq(&self, o: &KeyTy) -> (r: bool) {
        match (self, o) {
            (KeyTy::Str(a), KeyTy::Str(b)) => a.eq(b),
            (KeyTy::Keyword(a), KeyTy::Keyword(b)) => a.eq(b),
            _ => false,
        }
    }
}

impl vstd::std_specs::cmp::PartialEqSpecImpl for KeyTy {
    open spec fn obeys_eq_spec() -> bool {
        true
    }

    open spec fn eq_spec(&self, o: &KeyTy) -> bool {
        match (self, o) {
            (KeyTy::Str(a), KeyTy::Str(b)) => a@ == b@,
            (KeyTy::Keyword(a), KeyTy::Keyword(b)) => a@ == b@,
            _ => false,
        }
    }
}

/// A parsed expression.
pub enum Ty {
    List(Vec<Ty>),
    Vector(Vec<Ty>),
    Number(i64),
    True,
    False,
    Symbol(String),
    Str(String),
    Keyword(String),
    HashMap(Vec<(KeyTy, Ty)>),
    CsgFunc(Box<CsgFunc>),
}

/// A reading or evaluation error.
pub enum Error {
    InvalidKeyType(Ty),
    FormEarlyEnd(usize, usize),
    Unbalanced,
    UnknownEval(Ty),
    UnknownSymbol(String),
    InvalidType(Ty),
    UnknownTypeCheck,
}

/// Whitespace for the tokenizer: the ASCII whitespace characters.
pub open spec fn is_ws(c: char) -> bool {
    c == ' ' || c == '\t' || c == '\n' || c == '\r' || c == '\x0b' || c == '\x0c'
}

/// Characters the tokenizer skips between tokens.
pub open spec fn is_sep(c: char) -> bool {
    is_ws(c) || c == ','
}

/// The single-character tokens.
pub open spec fn is_special(c: char) -> bool {
    c == '[' || c == ']' || c == '{' || c == '}' || c == '(' || c == ')' || c == '\''
        || c == '`' || c == '~' || c == '^' || c == '@'
}

/// Characters that end a symbol run.
pub open spec fn ends_run(c: char) -> bool {
    is_ws(c) || c == '[' || c == ']' || c == '{' || c == '}' || c == '(' || c == ')' || c == '\''
        || c == '"' || c == '`' || c == ',' || c == ';'
}

/// Characters trimmed from both ends of a raw token.
pub open spec fn is_trimmed(c: char) -> bool {
    c == ',' || c == ' ' || c == '\n'
}

/// First position at or after `pos` that does not hold a separator.
pub open spec fn skip_sep(s: Seq<char>, pos: int) -> int
    decreases s.len() - pos,
    when 0 <= pos
{
    if pos < s.len() && is_sep(s[pos]) {
        skip_sep(s, pos + 1)
    } else {
        pos
    }
}

pub proof fn lemma_skip_sep(s: Seq<char>, pos: int)
    requires
        0 <= pos <= s.len(),
    ensures
        pos <= skip_sep(s, pos) <= s.len(),
        skip_sep(s, pos) < s.len() ==> !is_sep(s[skip_sep(s, pos)]),
    decreases s.len() - pos,
{
    if pos < s.len() && is_sep(s[pos]) {
        lemma_skip_sep(s, pos + 1);
    }
}

/// End of a string token whose opening quote sits just before `i`:
/// escaped pairs and plain characters run on until an unescaped quote, or
/// until the input (or an escape) runs out.
pub open spec fn scan_string(s: Seq<char>, i: int) -> int
    decreases s.len() - i,
    when 0 <= i
{
    if i >= s.len() {
        i
    } else if s[i] == '\\' {
        if i + 1 < s.len() && s[i + 1] != '\n' {
            scan_string(s, i + 2)
        } else {
            i
        }
    } else if s[i] == '"' {
        i + 1
    } else {
        scan_string(s, i + 1)
    }
}

pub proof fn lemma_scan_string(s: Seq<char>, i: int)
    requires
        0 <= i <= s.len(),
    ensures
        i <= scan_string(s, i) <= s.len(),
    decreases s.len() - i,
{
    if i < s.len() {
        if s[i] == '\\' {
            if i + 1 < s.len() && s[i + 1] != '\n' {
                lemma_scan_string(s, i + 2);
            }
        } else if s[i] != '"' {
            lemma_scan_string(s, i + 1);
        }
    }
}

/// End of a comment: everything up to the end of the line.
pub open spec fn scan_comment(s: Seq<char>, i: int) -> int
    decreases s.len() - i,
    when 0 <= i
{
    if i < s.len() && s[i] != '\n' {
        scan_comment(s, i + 1)
    } else {
        i
    }
}

pub proof fn lemma_scan_comment(s: Seq<char>, i: int)
    requires
        0 <= i <= s.len(),
    ensures
        i <= scan_comment(s, i) <= s.len(),
    decreases s.len() - i,
{
    if i < s.len() && s[i] != '\n' {
        lemma_scan_comment(s, i + 1);
    }
}

/// End of a symbol run.
pub open spec fn scan_run(s: Seq<char>, i: int) -> int
    decreases s.len() - i,
    when 0 <= i
{
    if i < s.len() && !ends_run(s[i]) {
        scan_run(s, i + 1)
    } else {
        i
    }
}

pub proof fn lemma_scan_run(s: Seq<char>, i: int)
    requires
        0 <= i <= s.len(),
    ensures
        i <= scan_run(s, i) <= s.len(),
    decreases s.len() - i,
{
    if i < s.len() && !ends_run(s[i]) {
        lemma_scan_run(s, i + 1);
    }
}

/// End of the token core starting at `w`.
pub open spec fn scan_core(s: Seq<char>, w: int) -> int {
    if w >= s.len() {
        w
    } else if s[w] == '~' && w + 1 < s.len() && s[w + 1] == '@' {
        w + 2
    } else if is_special(s[w]) {
        w + 1
    } else if s[w] == '"' {
        scan_string(s, w + 1)
    } else if s[w] == ';' {
        scan_comment(s, w + 1)
    } else {
        scan_run(s, w)
    }
}

pub proof fn lemma_scan_core(s: Seq<char>, w: int)
    requires
        0 <= w <= s.len(),
    ensures
        w <= scan_core(s, w) <= s.len(),
        w < s.len() && !is_sep(s[w]) ==> scan_core(s, w) > w,
{
    if w < s.len() {
        if s[w] == '~' && w + 1 < s.len() && s[w + 1] == '@' {
        } else if is_special(s[w]) {
        } else if s[w] == '"' {
            lemma_scan_string(s, w + 1);
        } else if s[w] == ';' {
            lemma_scan_comment(s, w + 1);
        } else {
            lemma_scan_run(s, w);
            if !is_sep(s[w]) {
                assert(!ends_run(s[w]));
                assert(scan_run(s, w) == scan_run(s, w + 1));
                lemma_scan_run(s, w + 1);
            }
        }
    }
}

/// Leading trimmed characters removed.
pub open spec fn trim_start(s: Seq<char>) -> Seq<char>
    decreases s.len(),
{
    if s.len() > 0 && is_trimmed(s[0]) {
        trim_start(s.drop_first())
    } else {
        s
    }
}

/// Trailing trimmed characters removed.
pub open spec fn trim_end(s: Seq<char>) -> Seq<char>
    decreases s.len(),
{
    if s.len() > 0 && is_trimmed(s.last()) {
        trim_end(s.drop_last())
    } else {
        s
    }
}

/// A raw token trimmed of commas, spaces and newlines at both ends.
pub open spec fn spec_trim(s: Seq<char>) -> Seq<char> {
    trim_end(trim_start(s))
}

/// The token stream from position `pos` on: one trimmed token per match,
/// and a single empty token at the end of input.
pub open spec fn spec_tokenize_from(s: Seq<char>, pos: int) -> Seq<Seq<char>>
    decreases s.len() - pos,
    when 0 <= pos <= s.len()
    via spec_tokenize_from_dec
{
    if pos >= s.len() {
        seq![Seq::<char>::empty()]
    } else {
        let w = skip_sep(s, pos);
        let e = scan_core(s, w);
        seq![spec_trim(s.subrange(pos, e))] + spec_tokenize_from(s, e)
    }
}

#[via_fn]
proof fn spec_tokenize_from_dec(s: Seq<char>, pos: int) {
    if pos < s.len() {
        lemma_skip_sep(s, pos);
        let w = skip_sep(s, pos);
        lemma_scan_core(s, w);
        if w == pos {
            assert(scan_core(s, w) > pos);
        }
    }
}

/// The tokens of a whole input, in order. The stream always ends with one
/// empty token; the parser uses it to detect an early end of input.
pub open spec fn spec_tokenize(s: Seq<char>) -> Seq<Seq<char>> {
    spec_tokenize_from(s, 0)
}

/// The views of a token vector.
pub open spec fn toks_view(v: Seq<Vec<char>>) -> Seq<Seq<char>> {
    v.map_values(|t: Vec<char>| t@)
}


/// The integer value of a decimal digit, or nothing.
pub open spec fn digit_val(c: char) -> Option<int> {
    if c == '0' {
        Some(0)
    } else if c == '1' {
        Some(1)
    } else if c == '2' {
        Some(2)
    } else if c == '3' {
        Some(3)
    } else if c == '4' {
        Some(4)
    } else if c == '5' {
        Some(5)
    } else if c == '6' {
        Some(6)
    } else if c == '7' {
        Some(7)
    } else if c == '8' {
        Some(8)
    } else if c == '9' {
        Some(9)
    } else {
        None
    }
}

/// Are all characters of `s` from `i` on decimal digits?
pub open spec fn all_digits(s: Seq<char>, i: int) -> bool {
    forall|j: int| i <= j < s.len() ==> #[trigger] digit_val(s[j]) is Some
}

/// The value of the digit run `s[i..k]`, read left to right.
pub open spec fn digits_val(s: Seq<char>, i: int, k: int) -> int
    decreases k - i,
{
    if k <= i {
        0
    } else {
        10 * digits_val(s, i, k - 1) + (match digit_val(s[k - 1]) {
            Some(d) => d,
            None => 0,
        })
    }
}

/// What `str::parse::<i32>` accepts on a token: an optional sign and at
/// least one digit, valued within the 32-bit signed range.
pub open spec fn spec_parse_i32(tok: Seq<char>) -> Option<int> {
    let start: int = if tok.len() > 0 && (tok[0] == '-' || tok[0] == '+') {
        1
    } else {
        0
    };
    if tok.len() > start && all_digits(tok, start) {
        let mag = digits_val(tok, start, tok.len() as int);
        let v: int = if tok.len() > 0 && tok[0] == '-' {
            -mag
        } else {
            mag
        };
        if -0x8000_0000 <= v <= 0x7fff_ffff {
            Some(v)
        } else {
            None
        }
    } else {
        None
    }
}

/// Digit runs are never negative.
proof fn lemma_digits_val_nonneg(s: Seq<char>, i: int, k: int)
    ensures
        digits_val(s, i, k) >= 0,
    decreases k - i,
{
    if k > i {
        lemma_digits_val_nonneg(s, i, k - 1);
        assert(digits_val(s, i, k) >= 0) by (nonlinear_arith)
            requires
                digits_val(s, i, k) == 10 * digits_val(s, i, k - 1) + (match digit_val(
                    s[k - 1],
                ) {
                    Some(d) => d,
                    None => 0,
                }),
                digits_val(s, i, k - 1) >= 0,
                digit_val(s[k - 1]) matches Some(d) ==> 0 <= d <= 9,
        ;
    }
}

/// What unescaping the interior of a string token yields, starting at `i`
/// with accumulator `acc` and escape state `slash`: the token's text up to
/// its closing quote, or nothing when the quote never comes.
pub open spec fn spec_unescape(tok: Seq<char>, i: int, acc: Seq<char>, slash: bool) -> Option<
    Seq<char>,
>
    decreases tok.len() - i,
    when 0 <= i
{
    if i >= tok.len() {
        None
    } else {
        let c = tok[i];
        if c == '"' && !slash {
            Some(acc)
        } else if c == '\\' && !slash {
            spec_unescape(tok, i + 1, acc, true)
        } else if c == 'n' && slash {
            spec_unescape(tok, i + 1, acc.push('\n'), false)
        } else if c == '"' && slash {
            spec_unescape(tok, i + 1, acc.push('"'), false)
        } else if c == '\\' && slash {
            spec_unescape(tok, i + 1, acc.push('\\'), false)
        } else {
            spec_unescape(tok, i + 1, acc.push(c), slash)
        }
    }
}

/// Is this token one of the three collection openers?
pub open spec fn opens_form(tok: Seq<char>) -> bool {
    tok == seq!['('] || tok == seq!['['] || tok == seq!['{']
}

/// What `read_atom` produces for one token.
pub open spec fn atom_matches(t: Ty, tok: Seq<char>) -> bool {
    if spec_parse_i32(tok) is Some {
        t matches Ty::Number(n) && n == spec_parse_i32(tok)->Some_0
    } else if tok.len() > 0 && tok[0] == '"' {
        t matches Ty::Str(s2) && Some(s2@) == spec_unescape(tok, 1, Seq::<char>::empty(), false)
    } else if tok.len() > 0 && tok[0] == ':' {
        t matches Ty::Keyword(s2) && s2@ == tok.drop_first()
    } else if tok == seq!['f', 'a', 'l', 's', 'e'] {
        t is False
    } else if tok == seq!['t', 'r', 'u', 'e'] {
        t is True
    } else {
        t matches Ty::Symbol(s2) && s2@ == tok
    }
}

/// The reader walks a token stream; `count` tracks the number of open
/// collection forms.
pub struct Reader {
    pub idx: usize,
    pub tokens: Vec<Vec<char>>,
    pub count: usize,
}

impl Reader {
    /// A usable reader: a non-empty token stream whose final entry is the
    /// empty token the tokenizer always appends.
    pub open spec fn inv(self) -> bool {
        self.tokens@.len() >= 1 && self.tokens@.last()@ == Seq::<char>::empty() && self.idx
            <= self.tokens@.len() && self.count <= self.idx
    }

    /// Creates a reader over a token stream.
    pub fn new(tokens: Vec<Vec<char>>) -> (r: Reader)
        ensures
            r.idx == 0,
            r.count == 0,
            r.tokens == tokens,
    {
        Reader { count: 0, idx: 0, tokens }
    }

    /// Converts a string to an expression tree. Returns an error if the
    /// input's collection forms are not well formed. When the input's first
    /// token is an atom, the result is that atom, exactly.
    pub fn read_str(string: &str) -> (r: Result<Ty, Error>)
        ensures
            ({
                let tok = spec_tokenize(string@)[0];
                !opens_form(tok) ==> ((r matches Ok(t) ==> atom_matches(t, tok)) && (r is Err
                    <==> (spec_parse_i32(tok) is None && tok.len() > 0 && tok[0] == '"'
                    && spec_unescape(tok, 1, Seq::<char>::empty(), false) is None)))
            }),
    {
        let len = string.unicode_len();
        let mut chars: Vec<char> = Vec::new();
        let mut i: usize = 0;
        while i < len
            invariant
                i <= len,
                len as nat == string@.len(),
                chars@ == string@.subrange(0, i as int),
            decreases len - i,
        {
            chars.push(string.get_char(i));
            proof {
                assert(string@.subrange(0, i as int).push(string@[i as int]) =~= string@.subrange(
                    0,
                    i + 1,
                ));
            }
            i = i + 1;
        }
        proof {
            assert(chars@ =~= string@);
        }
        let tokens = tokenize(&chars);
        let mut reader = Reader::new(tokens);
        proof {
            lemma_tokenize_last(chars@);
            assert(reader.tokens@[0]@ == spec_tokenize(string@)[0]);
        }
        reader.read_form()
    }

    /// Converts a single form to an expression tree. Consumes at least one
    /// token on success, leaves the open-form count balanced, and never
    /// touches the token stream.
    fn read_form(&mut self) -> (r: Result<Ty, Error>)
        requires
            old(self).inv(),
            old(self).idx < old(self).tokens@.len(),
        ensures
            final(self).tokens == old(self).tokens,
            final(self).inv(),
            final(self).idx >= old(self).idx,
            r is Ok ==> final(self).idx > old(self).idx && final(self).count == old(self).count
                && (old(self).count > 0 ==> final(self).idx < final(self).tokens@.len()),
            ({
                let tok = old(self).tokens@[old(self).idx as int]@;
                old(self).count == 0 && !opens_form(tok) ==> ((r matches Ok(t) ==> atom_matches(
                    t,
                    tok,
                )) && (r is Err <==> (spec_parse_i32(tok) is None && tok.len() > 0 && tok[0]
                    == '"' && spec_unescape(tok, 1, Seq::<char>::empty(), false) is None)))
            }),
        decreases old(self).tokens@.len() - old(self).idx, 0int,
    {
        let ghost tok0 = self.tokens@[self.idx as int]@;
        let n = self.tokens.len();
        if self.idx + 1 == n && self.count != 0 {
            return Err(Error::FormEarlyEnd(n, self.count));
        }
        let t = &self.tokens[self.idx];
        proof {
            if t@.len() == 1 {
                if t@[0] == '(' {
                    assert(tok0 =~= seq!['(']);
                } else if t@[0] == '[' {
                    assert(tok0 =~= seq!['[']);
                } else if t@[0] == '{' {
                    assert(tok0 =~= seq!['{']);
                }
            }
            if opens_form(tok0) {
                assert(tok0.len() == 1);
            }
        }
        if t.len() == 1 && t[0] == '(' {
            proof {
                assert(self.tokens@[self.idx as int]@ != Seq::<char>::empty());
                assert(self.idx != self.tokens@.len() - 1);
            }
            self.idx = self.idx + 1;
            self.count = self.count + 1;
            self.read_list()
        } else if t.len() == 1 && t[0] == '[' {
            proof {
                assert(self.tokens@[self.idx as int]@ != Seq::<char>::empty());
                assert(self.idx != self.tokens@.len() - 1);
            }
            self.idx = self.idx + 1;
            self.count = self.count + 1;
            self.read_list()
        } else if t.len() == 1 && t[0] == '{' {
            proof {
                assert(self.tokens@[self.idx as int]@ != Seq::<char>::empty());
                assert(self.idx != self.tokens@.len() - 1);
            }
            self.idx = self.idx + 1;
            self.count = self.count + 1;
            self.read_hashmap()
        } else {
            self.read_atom()
        }
    }

    /// Converts a vector `[]` or list `()` into an expression tree: reads
    /// forms until the closing bracket, which picks the result's shape.
    fn read_list(&mut self) -> (r: Result<Ty, Error>)
        requires
            old(self).inv(),
            old(self).idx < old(self).tokens@.len(),
            old(self).count >= 1,
        ensures
            final(self).tokens == old(self).tokens,
            final(self).inv(),
            final(self).idx >= old(self).idx,
            r is Ok ==> final(self).idx > old(self).idx && final(self).count == old(self).count
                - 1 && final(self).idx < final(self).tokens@.len(),
        decreases old(self).tokens@.len() - old(self).idx, 2int,
    {
        let mut accum: Vec<Ty> = Vec::new();
        match self.read_items(&mut accum) {
            Ok(true) => Ok(Ty::Vector(accum)),
            Ok(false) => Ok(Ty::List(accum)),
            Err(e) => Err(e),
        }
    }

    /// Reads forms into `accum` until a closing bracket: `true` for `]`,
    /// `false` for `)`.
    fn read_items(&mut self, accum: &mut Vec<Ty>) -> (r: Result<bool, Error>)
        requires
            old(self).inv(),
            old(self).idx < old(self).tokens@.len(),
            old(self).count >= 1,
        ensures
            final(self).tokens == old(self).tokens,
            final(self).inv(),
            final(self).idx >= old(self).idx,
            r is Ok ==> final(self).idx > old(self).idx && final(self).count == old(self).count
                - 1 && final(self).idx < final(self).tokens@.len(),
        decreases old(self).tokens@.len() - old(self).idx, 1int,
    {
        let n = self.tokens.len();
        proof {
            assert(self.idx < n);
        }
        let t = &self.tokens[self.idx];
        if t.len() == 1 && t[0] == ']' {
            proof {
                assert(self.tokens@[self.idx as int]@ != Seq::<char>::empty());
                assert(self.idx != self.tokens@.len() - 1);
            }
            self.idx = self.idx + 1;
            self.count = self.count - 1;
            Ok(true)
        } else if t.len() == 1 && t[0] == ')' {
            proof {
                assert(self.tokens@[self.idx as int]@ != Seq::<char>::empty());
                assert(self.idx != self.tokens@.len() - 1);
            }
            self.idx = self.idx + 1;
            self.count = self.count - 1;
            Ok(false)
        } else {
            match self.read_form() {
                Err(e) => Err(e),
                Ok(ty) => {
                    accum.push(ty);
                    self.read_items(accum)
                },
            }
        }
    }

    /// Converts a map `{}` into an expression tree: alternating keys and
    /// values until the closing brace; a later binding of an equal key
    /// replaces the earlier one.
    fn read_hashmap(&mut self) -> (r: Result<Ty, Error>)
        requires
            old(self).inv(),
            old(self).idx < old(self).tokens@.len(),
            old(self).count >= 1,
        ensures
            final(self).tokens == old(self).tokens,
            final(self).inv(),
            final(self).idx >= old(self).idx,
            r is Ok ==> final(self).idx > old(self).idx && final(self).count == old(self).count
                - 1 && final(self).idx < final(self).tokens@.len(),
        decreases old(self).tokens@.len() - old(self).idx, 2int,
    {
        let mut accum: Vec<(KeyTy, Ty)> = Vec::new();
        match self.read_pairs(&mut accum) {
            Ok(()) => Ok(Ty::HashMap(accum)),
            Err(e) => Err(e),
        }
    }

    /// Reads key-value pairs into `accum` until the closing brace.
    fn read_pairs(&mut self, accum: &mut Vec<(KeyTy, Ty)>) -> (r: Result<(), Error>)
        requires
            old(self).inv(),
            old(self).idx < old(self).tokens@.len(),
            old(self).count >= 1,
        ensures
            final(self).tokens == old(self).tokens,
            final(self).inv(),
            final(self).idx >= old(self).idx,
            r is Ok ==> final(self).idx > old(self).idx && final(self).count == old(self).count
                - 1 && final(self).idx < final(self).tokens@.len(),
        decreases old(self).tokens@.len() - old(self).idx, 1int,
    {
        let n = self.tokens.len();
        proof {
            assert(self.idx < n);
        }
        let t = &self.tokens[self.idx];
        if t.len() == 1 && t[0] == '}' {
            proof {
                assert(self.tokens@[self.idx as int]@ != Seq::<char>::empty());
                assert(self.idx != self.tokens@.len() - 1);
            }
            self.idx = self.idx + 1;
            self.count = self.count - 1;
            Ok(())
        } else {
            let key = match self.read_form() {
                Err(e) => {
                    return Err(e);
                },
                Ok(k) => match k {
                    Ty::Str(s2) => KeyTy::Str(s2),
                    Ty::Keyword(s2) => KeyTy::Keyword(s2),
                    other => {
                        return Err(Error::InvalidKeyType(other));
                    },
                },
            };
            let val = match self.read_form() {
                Err(e) => {
                    return Err(e);
                },
                Ok(v) => v,
            };
            assoc_insert(accum, key, val);
            self.read_pairs(accum)
        }
    }

    /// Makes an atom into an expression: a number if the 32-bit decimal
    /// syntax fits, a string with its escapes undone, a keyword after a
    /// colon, a boolean literal, and a symbol otherwise.
    fn read_atom(&mut self) -> (r: Result<Ty, Error>)
        requires
            old(self).inv(),
            old(self).idx < old(self).tokens@.len(),
        ensures
            final(self).tokens == old(self).tokens,
            final(self).inv(),
            final(self).idx == old(self).idx + 1,
            final(self).count == old(self).count,
            ({
                let tok = old(self).tokens@[old(self).idx as int]@;
                &&& (r matches Ok(t) ==> atom_matches(t, tok))
                &&& (r is Err <==> (spec_parse_i32(tok) is None && tok.len() > 0 && tok[0] == '"'
                    && spec_unescape(tok, 1, Seq::<char>::empty(), false) is None))
            }),
        decreases old(self).tokens@.len() - old(self).idx, 0int,
    {
        let ghost tok = self.tokens@[self.idx as int]@;
        let n = self.tokens.len();
        proof {
            assert(self.idx < n);
        }
        let r = Reader::atom_of(&self.tokens[self.idx]);
        self.idx = self.idx + 1;
        r
    }

    /// The expression one atom token denotes.
    fn atom_of(t: &Vec<char>) -> (r: Result<Ty, Error>)
        ensures
            (r matches Ok(ty) ==> atom_matches(ty, t@)),
            (r is Err <==> (spec_parse_i32(t@) is None && t@.len() > 0 && t@[0] == '"'
                && spec_unescape(t@, 1, Seq::<char>::empty(), false) is None)),
    {
        match parse_i32_token(t) {
            Some(n) => {
                return Ok(Ty::Number(n));
            },
            None => {},
        }
        if t.len() > 0 && t[0] == '"' {
            return match unescape_token(t) {
                Some(s2) => Ok(Ty::Str(s2)),
                None => Err(Error::Unbalanced),
            };
        }
        if t.len() > 0 && t[0] == ':' {
            let mut acc = String::new();
            proof {
                assert(acc@ =~= t@.subrange(1, 1));
            }
            let mut i: usize = 1;
            while i < t.len()
                invariant
                    1 <= i <= t@.len(),
                    acc@ == t@.subrange(1, i as int),
                decreases t@.len() - i,
            {
                crate::storage::push_char(&mut acc, t[i]);
                proof {
                    assert(t@.subrange(1, i as int).push(t@[i as int]) =~= t@.subrange(
                        1,
                        i + 1,
                    ));
                }
                i = i + 1;
            }
            proof {
                assert(t@.subrange(1, t@.len() as int) =~= t@.drop_first());
            }
            return Ok(Ty::Keyword(acc));
        }
        if t.len() == 5 && t[0] == 'f' && t[1] == 'a' && t[2] == 'l' && t[3] == 's' && t[4]
            == 'e' {
            proof {
                assert(t@ =~= seq!['f', 'a', 'l', 's', 'e']);
            }
            return Ok(Ty::False);
        }
        if t.len() == 4 && t[0] == 't' && t[1] == 'r' && t[2] == 'u' && t[3] == 'e' {
            proof {
                assert(t@ =~= seq!['t', 'r', 'u', 'e']);
            }
            return Ok(Ty::True);
        }
        proof {
            if t@ == seq!['f', 'a', 'l', 's', 'e'] {
                assert(t@.len() == 5 && t@[0] == 'f' && t@[1] == 'a' && t@[2] == 'l' && t@[3]
                    == 's' && t@[4] == 'e');
            }
            if t@ == seq!['t', 'r', 'u', 'e'] {
                assert(t@.len() == 4 && t@[0] == 't' && t@[1] == 'r' && t@[2] == 'u' && t@[3]
                    == 'e');
            }
        }
        let mut acc = String::new();
        proof {
            assert(acc@ =~= t@.subrange(0, 0));
        }
        let mut i: usize = 0;
        while i < t.len()
            invariant
                0 <= i <= t@.len(),
                acc@ == t@.subrange(0, i as int),
            decreases t@.len() - i,
        {
            crate::storage::push_char(&mut acc, t[i]);
            proof {
                assert(t@.subrange(0, i as int).push(t@[i as int]) =~= t@.subrange(0, i + 1));
            }
            i = i + 1;
        }
        proof {
            assert(t@.subrange(0, t@.len() as int) =~= t@);
        }
        Ok(Ty::Symbol(acc))
    }
}

/// Insert a binding: replaces the first binding of an equal key, appending
/// otherwise.
fn assoc_insert(accum: &mut Vec<(KeyTy, Ty)>, key: KeyTy, val: Ty) {
    let mut i: usize = 0;
    let n = accum.len();
    while i < n
        invariant
            i <= n,
            n <= accum@.len(),
        decreases n - i,
    {
        if accum[i].0.eq(&key) {
            accum.remove(i);
            accum.insert(i, (key, val));
            return ;
        }
        i = i + 1;
    }
    accum.push((key, val));
}

/// Parse a token as a 32-bit decimal integer, exactly as `str::parse::<i32>`
/// accepts it.
fn parse_i32_token(t: &Vec<char>) -> (r: Option<i64>)
    ensures
        r is Some <==> spec_parse_i32(t@) is Some,
        r matches Some(v) ==> Some(v as int) == spec_parse_i32(t@),
{
    let n = t.len();
    let start: usize = if n > 0 && (t[0] == '-' || t[0] == '+') {
        1
    } else {
        0
    };
    proof {
        assert(n == t@.len());
        assert(start as int == (if t@.len() > 0 && (t@[0] == '-' || t@[0] == '+') {
            1int
        } else {
            0int
        }));
    }
    if n <= start {
        return None;
    }
    let neg = t[0] == '-';
    let mut acc: i64 = 0;
    let mut i: usize = start;
    proof {
        lemma_digits_val_nonneg(t@, start as int, start as int);
    }
    while i < n
        invariant
            start <= i <= n,
            n == t@.len(),
            start as int == (if t@.len() > 0 && (t@[0] == '-' || t@[0] == '+') {
                1int
            } else {
                0int
            }),
            n > start,
            neg == (t@.len() > 0 && t@[0] == '-'),
            forall|j: int| start <= j < i ==> #[trigger] digit_val(t@[j]) is Some,
            0 <= acc <= 0x1_0000_0000_0000,
            acc == digits_val(t@, start as int, i as int) || (acc == 0x1_0000_0000_0000
                && digits_val(t@, start as int, i as int) >= acc),
        decreases n - i,
    {
        let d: i64 = match t[i] {
            '0' => 0,
            '1' => 1,
            '2' => 2,
            '3' => 3,
            '4' => 4,
            '5' => 5,
            '6' => 6,
            '7' => 7,
            '8' => 8,
            '9' => 9,
            _ => {
                proof {
                    assert(digit_val(t@[i as int]) is None);
                    assert(start as int == (if t@.len() > 0 && (t@[0] == '-' || t@[0] == '+') {
                        1int
                    } else {
                        0int
                    }));
                    assert(!all_digits(t@, start as int));
                    assert(spec_parse_i32(t@) is None);
                }
                return None;
            },
        };
        let ghost acc0 = acc as int;
        let ghost dv_i = digits_val(t@, start as int, i as int);
        proof {
            lemma_digits_val_nonneg(t@, start as int, i as int);
        }
        if acc < 0x1_0000_0000_0000 {
            acc = 10 * acc + d;
            if acc > 0x1_0000_0000_0000 {
                acc = 0x1_0000_0000_0000;
            }
        }
        proof {
            let dv_n = digits_val(t@, start as int, i + 1);
            assert(dv_n == 10 * dv_i + d);
            assert(10 * dv_i + d >= dv_i) by (nonlinear_arith)
                requires
                    dv_i >= 0,
                    d >= 0,
            ;
            if acc0 == dv_i {
                assert(acc == dv_n || (acc == 0x1_0000_0000_0000 && dv_n >= acc));
            } else {
                assert(dv_i >= 0x1_0000_0000_0000);
                assert(dv_n >= 0x1_0000_0000_0000);
            }
        }
        i = i + 1;
    }
    proof {
        assert(all_digits(t@, start as int));
    }
    if neg {
        if acc <= 0x8000_0000 {
            Some(-acc)
        } else {
            None
        }
    } else {
        if acc <= 0x7fff_ffff {
            Some(acc)
        } else {
            None
        }
    }
}

/// Undo the escapes of a string token's interior, or report it unbalanced.
fn unescape_token(t: &Vec<char>) -> (r: Option<String>)
    requires
        t@.len() >= 1,
    ensures
        r is Some <==> spec_unescape(t@, 1, Seq::<char>::empty(), false) is Some,
        r matches Some(s2) ==> Some(s2@) == spec_unescape(t@, 1, Seq::<char>::empty(), false),
{
    let mut acc = String::new();
    let mut slash = false;
    let mut i: usize = 1;
    while i < t.len()
        invariant
            1 <= i <= t@.len(),
            spec_unescape(t@, 1, Seq::<char>::empty(), false) == spec_unescape(
                t@,
                i as int,
                acc@,
                slash,
            ),
        decreases t@.len() - i,
    {
        let c = t[i];
        if c == '"' && !slash {
            return Some(acc);
        } else if c == '\\' && !slash {
            slash = true;
        } else if c == 'n' && slash {
            crate::storage::push_char(&mut acc, '\n');
            slash = false;
        } else if c == '"' && slash {
            crate::storage::push_char(&mut acc, '"');
            slash = false;
        } else if c == '\\' && slash {
            crate::storage::push_char(&mut acc, '\\');
            slash = false;
        } else {
            crate::storage::push_char(&mut acc, c);
        }
        i = i + 1;
    }
    None
}

/// The token stream of an input always ends with the empty token.
pub proof fn lemma_tokenize_last(s: Seq<char>)
    ensures
        spec_tokenize(s).len() >= 1,
        spec_tokenize(s).last() == Seq::<char>::empty(),
{
    lemma_tokenize_from_last(s, 0);
}

proof fn lemma_tokenize_from_last(s: Seq<char>, pos: int)
    requires
        0 <= pos <= s.len(),
    ensures
        spec_tokenize_from(s, pos).len() >= 1,
        spec_tokenize_from(s, pos).last() == Seq::<char>::empty(),
    decreases s.len() - pos,
{
    if pos < s.len() {
        lemma_skip_sep(s, pos);
        let w = skip_sep(s, pos);
        lemma_scan_core(s, w);
        let e = scan_core(s, w);
        lemma_tokenize_from_last(s, e);
    }
}

/// Split the text into its tokens.
pub fn tokenize(chars: &Vec<char>) -> (r: Vec<Vec<char>>)
    ensures
        toks_view(r@) == spec_tokenize(chars@),
{
    let s = chars;
    let mut out: Vec<Vec<char>> = Vec::new();
    let mut pos: usize = 0;
    while pos < s.len()
        invariant
            pos <= s@.len(),
            toks_view(out@) + spec_tokenize_from(s@, pos as int) == spec_tokenize(s@),
        decreases s@.len() - pos,
    {
        let ghost entry = pos as int;
        proof {
            lemma_skip_sep(s@, pos as int);
        }
        let mut w: usize = pos;
        while w < s.len() && (s[w] == ' ' || s[w] == '\t' || s[w] == '\n' || s[w] == '\r' || s[w]
            == '\x0b' || s[w] == '\x0c' || s[w] == ',')
            invariant
                entry <= w <= s@.len(),
                skip_sep(s@, entry) == skip_sep(s@, w as int),
            decreases s@.len() - w,
        {
            w = w + 1;
        }
        proof {
            assert(skip_sep(s@, w as int) == w as int);
            assert(w as int == skip_sep(s@, entry));
            lemma_scan_core(s@, w as int);
        }
        let e: usize = scan_core_exec(s, w);
        proof {
            assert(e > entry);
        }
        let mut ts: usize = pos;
        while ts < e && (s[ts] == ',' || s[ts] == ' ' || s[ts] == '\n')
            invariant
                entry <= ts <= e,
                e <= s@.len(),
                trim_start(s@.subrange(entry, e as int)) == trim_start(
                    s@.subrange(ts as int, e as int),
                ),
            decreases e - ts,
        {
            proof {
                assert(s@.subrange(ts as int, e as int).drop_first() =~= s@.subrange(
                    ts + 1,
                    e as int,
                ));
            }
            ts = ts + 1;
        }
        proof {
            assert(trim_start(s@.subrange(ts as int, e as int)) == s@.subrange(
                ts as int,
                e as int,
            ));
        }
        let mut te: usize = e;
        while te > ts && (s[te - 1] == ',' || s[te - 1] == ' ' || s[te - 1] == '\n')
            invariant
                ts <= te <= e,
                e <= s@.len(),
                trim_end(s@.subrange(ts as int, e as int)) == trim_end(
                    s@.subrange(ts as int, te as int),
                ),
            decreases te,
        {
            proof {
                assert(s@.subrange(ts as int, te as int).drop_last() =~= s@.subrange(
                    ts as int,
                    te - 1,
                ));
            }
            te = te - 1;
        }
        proof {
            assert(trim_end(s@.subrange(ts as int, te as int)) == s@.subrange(
                ts as int,
                te as int,
            ));
        }
        let mut tok: Vec<char> = Vec::new();
        let mut i: usize = ts;
        while i < te
            invariant
                ts <= i <= te,
                te <= s@.len(),
                tok@ == s@.subrange(ts as int, i as int),
            decreases te - i,
        {
            tok.push(s[i]);
            proof {
                assert(s@.subrange(ts as int, i as int).push(s@[i as int]) =~= s@.subrange(
                    ts as int,
                    i + 1,
                ));
            }
            i = i + 1;
        }
        proof {
            assert(tok@ =~= s@.subrange(ts as int, te as int));
            assert(tok@ == spec_trim(s@.subrange(entry, e as int)));
        }
        out.push(tok);
        proof {
            assert(toks_view(out@) =~= toks_view(out@.drop_last()).push(tok@));
        }
        pos = e;
    }
    out.push(Vec::new());
    proof {
        assert(toks_view(out@) =~= toks_view(out@.drop_last()).push(Seq::<char>::empty()));
        assert(spec_tokenize_from(chars@, pos as int) == seq![Seq::<char>::empty()]);
        assert(toks_view(out@.drop_last()) + seq![Seq::<char>::empty()] =~= toks_view(out@));
    }
    out
}

/// End of the token core starting at `w`, as a value.
fn scan_core_exec(s: &Vec<char>, w: usize) -> (e: usize)
    requires
        w <= s@.len(),
    ensures
        e as int == scan_core(s@, w as int),
        w <= e <= s@.len(),
{
    proof {
        lemma_scan_core(s@, w as int);
    }
    if w >= s.len() {
        return w;
    }
    let c = s[w];
    if c == '~' && w + 1 < s.len() && s[w + 1] == '@' {
        w + 2
    } else if c == '[' || c == ']' || c == '{' || c == '}' || c == '(' || c == ')' || c == '\''
        || c == '`' || c == '~' || c == '^' || c == '@' {
        w + 1
    } else if c == '"' {
        let mut i: usize = w + 1;
        loop
            invariant
                w + 1 <= i <= s@.len(),
                w < s@.len() && s@[w as int] == '"',
                scan_string(s@, (w + 1) as int) == scan_string(s@, i as int),
            decreases s@.len() - i,
        {
            proof {
                lemma_scan_string(s@, i as int);
                assert(scan_core(s@, w as int) == scan_string(s@, (w + 1) as int));
            }
            if i >= s.len() {
                proof {
                    assert(scan_string(s@, i as int) == i as int);
                }
                return i;
            }
            if s[i] == '\\' {
                if i + 1 < s.len() && s[i + 1] != '\n' {
                    i = i + 2;
                } else {
                    proof {
                        assert(scan_string(s@, i as int) == i as int);
                    }
                    return i;
                }
            } else if s[i] == '"' {
                proof {
                    assert(scan_string(s@, i as int) == i + 1);
                }
                return i + 1;
            } else {
                i = i + 1;
            }
        }
    } else if c == ';' {
        let mut i: usize = w + 1;
        while i < s.len() && s[i] != '\n'
            invariant
                w + 1 <= i <= s@.len(),
                scan_comment(s@, (w + 1) as int) == scan_comment(s@, i as int),
            decreases s@.len() - i,
        {
            i = i + 1;
        }
        i
    } else {
        let mut i: usize = w;
        while i < s.len() && !(s[i] == ' ' || s[i] == '\t' || s[i] == '\n' || s[i] == '\r' || s[i]
            == '\x0b' || s[i] == '\x0c' || s[i] == '[' || s[i] == ']' || s[i] == '{' || s[i] == '}'
            || s[i] == '(' || s[i] == ')' || s[i] == '\'' || s[i] == '"' || s[i] == '`' || s[i]
            == ',' || s[i] == ';')
            invariant
                w <= i <= s@.len(),
                scan_run(s@, w as int) == scan_run(s@, i as int),
            decreases s@.len() - i,
        {
            i = i + 1;
        }
        i
    }
}

} // verus!
