//! The expansion controller: a state machine over tokens that keeps the
//! definitions, the calls in progress and the output.
use vstd::prelude::*;
use crate::expand::{expand, substitute, views};
use crate::lexer::{lex, token_text, LexResult, Lexed, Token, TokenV, Tokenizer};
use crate::table::{same_chars, MacroTable};
use crate::text::{append_chars, chars_of, is_whitespace, string_of, white_space};

verus! {

/// How many steps one call of `write` or `finish` may take before it stops
/// with `MacroError::StepLimit`.
pub const STEP_LIMIT: u64 = 0xffff_ffff_ffff_ffff;

/// The name of the built-in macro that defines other macros.
pub open spec fn define_name() -> Seq<char> {
    seq!['d', 'e', 'f', 'i', 'n', 'e']
}

/// A macro call in progress, as a value.
pub struct FrameV {
    pub name: Seq<char>,
    pub template: Seq<char>,
    /// `args[0]` is the macro's name; the arguments follow from index 1.
    pub args: Seq<Seq<char>>,
    pub parens: nat,
}

/// The failures of expansion, as values.
pub enum ErrorV {
    UnterminatedQuote,
    UnterminatedCall { name: Seq<char> },
    UndefinedPlaceholder { name: Seq<char>, index: Seq<char> },
    DefineArity { given: nat },
    StepLimit,
}

/// The whole state of the processor, as a value.
pub struct EngineV {
    /// Input not yet turned into tokens.
    pub input: Seq<char>,
    /// Whether the input has ended.
    pub at_end: bool,
    /// A macro name that waits for the next character.
    pub pending: Option<FrameV>,
    /// Calls whose arguments are being read, innermost last.
    pub stack: Seq<FrameV>,
    /// Whether whitespace literals are dropped until something else comes.
    pub skip_ws: bool,
    pub output: Seq<char>,
    pub macros: Map<Seq<char>, Seq<char>>,
}

/// `x` appended to the last argument of `f`.
pub open spec fn append_arg(f: FrameV, x: Seq<char>) -> FrameV {
    FrameV { args: f.args.drop_last().push(f.args.last() + x), ..f }
}

/// `s` with its innermost call replaced by `f`.
pub open spec fn with_top(s: EngineV, f: FrameV) -> EngineV {
    EngineV { stack: s.stack.drop_last().push(f), ..s }
}

/// Completes the call `m` in state `s`: `define` records a definition; any
/// other macro's expansion is put back in front of the input.
pub open spec fn call_macro(s: EngineV, m: FrameV) -> (EngineV, Option<ErrorV>) {
    if m.name == define_name() {
        if m.args.len() == 3 {
            (EngineV { macros: s.macros.insert(m.args[1], m.args[2]), ..s }, None)
        } else {
            (s, Some(ErrorV::DefineArity { given: (m.args.len() - 1) as nat }))
        }
    } else {
        match substitute(m.template, m.args) {
            Ok(r) => (EngineV { input: r + s.input, ..s }, None),
            Err(d) => (s, Some(ErrorV::UndefinedPlaceholder { name: m.name, index: d })),
        }
    }
}

/// Decides a pending macro by the next character: `(` opens its argument
/// list; anything else, or the end of input, calls it with no arguments.
/// `Ok(false)` says that the input is exhausted and more is needed.
pub open spec fn resolve_pending(s: EngineV) -> (EngineV, Result<bool, ErrorV>) {
    let m = s.pending->Some_0;
    if s.input.len() > 0 && s.input[0] == '(' {
        (
            EngineV {
                input: s.input.skip(1),
                pending: None,
                stack: s.stack.push(FrameV { args: m.args.push(Seq::empty()), ..m }),
                skip_ws: true,
                ..s
            },
            Ok(true),
        )
    } else if s.input.len() == 0 && !s.at_end {
        (s, Ok(false))
    } else {
        let (t, e) = call_macro(EngineV { pending: None, ..s }, m);
        match e {
            None => (t, Ok(true)),
            Some(e) => (t, Err(e)),
        }
    }
}

/// A literal character read inside the arguments of the innermost call.
pub open spec fn literal_in_macro(s: EngineV, c: char) -> (EngineV, Option<ErrorV>) {
    let top = s.stack.last();
    if c == ')' && top.parens == 0 {
        call_macro(EngineV { stack: s.stack.drop_last(), ..s }, top)
    } else if c == ')' {
        (with_top(s, FrameV { parens: (top.parens - 1) as nat, ..append_arg(top, seq![c]) }), None)
    } else if c == '(' {
        (with_top(s, FrameV { parens: top.parens + 1, ..append_arg(top, seq![c]) }), None)
    } else if c == ',' && top.parens == 0 {
        (
            EngineV {
                skip_ws: true,
                ..with_top(s, FrameV { args: top.args.push(Seq::empty()), ..top })
            },
            None,
        )
    } else {
        (with_top(s, append_arg(top, seq![c])), None)
    }
}

/// Whether `t` is a literal whitespace character.
pub open spec fn is_blank(t: TokenV) -> bool {
    match t {
        TokenV::Literal(c) => white_space(c),
        _ => false,
    }
}

/// Whether `t` names a macro of `s` or the built-in `define`.
pub open spec fn names_macro(s: EngineV, t: TokenV) -> bool {
    match t {
        TokenV::Name(n) => s.macros.contains_key(n) || n == define_name(),
        _ => false,
    }
}

/// The call that a name starts, with the template it has now.
pub open spec fn pending_for(s: EngineV, n: Seq<char>) -> FrameV {
    FrameV {
        name: n,
        template: if s.macros.contains_key(n) {
            s.macros[n]
        } else {
            Seq::empty()
        },
        args: seq![n],
        parens: 0,
    }
}

/// Handles one token (not the end marker) that has been taken from the input.
pub open spec fn process_token(s: EngineV, t: TokenV) -> (EngineV, Option<ErrorV>) {
    if s.skip_ws && is_blank(t) {
        (s, None)
    } else {
        let s1 = EngineV { skip_ws: false, ..s };
        if names_macro(s, t) {
            (EngineV { pending: Some(pending_for(s, t->Name_0)), ..s1 }, None)
        } else if s1.stack.len() == 0 {
            (EngineV { output: s1.output + token_text(t), ..s1 }, None)
        } else {
            match t {
                TokenV::Literal(c) => literal_in_macro(s1, c),
                _ => (with_top(s1, append_arg(s1.stack.last(), token_text(t))), None),
            }
        }
    }
}

/// One step of the processor. `Ok(true)`: it moved on; `Ok(false)`: it waits
/// for more input, or the input has ended cleanly.
pub open spec fn step(s: EngineV) -> (EngineV, Result<bool, ErrorV>) {
    if s.pending is Some {
        resolve_pending(s)
    } else {
        match lex(s.input, s.at_end) {
            Lexed::NeedMore => (s, Ok(false)),
            Lexed::Unterminated => (s, Err(ErrorV::UnterminatedQuote)),
            Lexed::Token(t, n) => if t is End {
                if s.stack.len() > 0 {
                    (s, Err(ErrorV::UnterminatedCall { name: s.stack.last().name }))
                } else {
                    (s, Ok(false))
                }
            } else {
                let (s2, e) = process_token(EngineV { input: s.input.skip(n as int), ..s }, t);
                match e {
                    None => (s2, Ok(true)),
                    Some(e) => (s2, Err(e)),
                }
            },
        }
    }
}

/// Steps from `s` until the processor waits or fails, at most `fuel` times.
pub open spec fn run(s: EngineV, fuel: nat) -> (EngineV, Option<ErrorV>)
    decreases fuel,
{
    if fuel == 0 {
        (s, Some(ErrorV::StepLimit))
    } else {
        let (s2, r) = step(s);
        match r {
            Ok(true) => run(s2, (fuel - 1) as nat),
            Ok(false) => (s2, None),
            Err(e) => (s2, Some(e)),
        }
    }
}

/// The state of a fresh processor.
pub open spec fn initial() -> EngineV {
    EngineV {
        input: Seq::empty(),
        at_end: false,
        pending: None,
        stack: Seq::empty(),
        skip_ws: false,
        output: Seq::empty(),
        macros: Map::empty(),
    }
}

/// A failure of expansion.
#[derive(Debug)]
pub enum MacroError {
    /// The input ended inside a quoted string.
    UnterminatedQuote,
    /// The input ended before the call of `name` was closed.
    UnterminatedCall { name: Vec<char> },
    /// The template of `name` refers to `$index`, past its arguments.
    UndefinedPlaceholder { name: Vec<char>, index: Vec<char> },
    /// `define` was given `given` arguments instead of two.
    DefineArity { given: usize },
    /// Expansion did not settle within the step limit.
    StepLimit,
}

impl View for MacroError {
    type V = ErrorV;

    open spec fn view(&self) -> ErrorV {
        match self {
            MacroError::UnterminatedQuote => ErrorV::UnterminatedQuote,
            MacroError::UnterminatedCall { name } => ErrorV::UnterminatedCall { name: name@ },
            MacroError::UndefinedPlaceholder { name, index } => ErrorV::UndefinedPlaceholder {
                name: name@,
                index: index@,
            },
            MacroError::DefineArity { given } => ErrorV::DefineArity { given: *given as nat },
            MacroError::StepLimit => ErrorV::StepLimit,
        }
    }
}

/// The error of a result, as a value.
pub open spec fn err_of(r: Result<(), MacroError>) -> Option<ErrorV> {
    match r {
        Ok(_) => None,
        Err(e) => Some(e@),
    }
}

/// A step's result, as a value.
pub open spec fn outcome_of(r: Result<bool, MacroError>) -> Result<bool, ErrorV> {
    match r {
        Ok(b) => Ok(b),
        Err(e) => Err(e@),
    }
}

/// A macro call in progress: the macro's name and template, the arguments
/// read so far, and how many parentheses are open inside the current one.
pub struct Macro {
    name: Vec<char>,
    value: Vec<char>,
    args: Vec<Vec<char>>,
    parens: usize,
}

impl View for Macro {
    type V = FrameV;

    closed spec fn view(&self) -> FrameV {
        FrameV { name: self.name@, template: self.value@, args: views(self.args@), parens: self.parens as nat }
    }
}

impl Macro {
    pub closed spec fn wf(&self) -> bool {
        &&& self.args@.len() >= 1
        &&& self.parens <= self.args@.last()@.len()
    }

    /// A call of `name` with template `value` and no arguments yet.
    pub fn new(name: &Vec<char>, value: &Vec<char>) -> (r: Self)
        ensures
            r.wf(),
            r@ == (FrameV { name: name@, template: value@, args: seq![name@], parens: 0 }),
    {
        let mut n: Vec<char> = Vec::new();
        append_chars(&mut n, name);
        let mut n2: Vec<char> = Vec::new();
        append_chars(&mut n2, name);
        let mut v: Vec<char> = Vec::new();
        append_chars(&mut v, value);
        let mut args: Vec<Vec<char>> = Vec::new();
        args.push(n2);
        let r = Macro { name: n, value: v, args, parens: 0 };
        assert(views(r.args@) =~= seq![name@]);
        r
    }
}

/// The characters of the word `define`.
fn define_word() -> (r: Vec<char>)
    ensures
        r@ == define_name(),
{
    let mut w: Vec<char> = Vec::new();
    w.push('d');
    w.push('e');
    w.push('f');
    w.push('i');
    w.push('n');
    w.push('e');
    assert(w@ =~= define_name());
    w
}

/// The frames' values.
pub open spec fn frame_views(v: Seq<Macro>) -> Seq<FrameV> {
    v.map_values(|m: Macro| m@)
}

/// Every frame of `v` is well formed.
pub open spec fn stack_wf(v: Seq<Macro>) -> bool {
    forall|i: int| 0 <= i < v.len() ==> #[trigger] v[i].wf()
}

proof fn lemma_stack_pop(v: Seq<Macro>)
    requires
        stack_wf(v),
        v.len() > 0,
    ensures
        stack_wf(v.drop_last()),
        v.last().wf(),
        frame_views(v.drop_last()) == frame_views(v).drop_last(),
        frame_views(v).last() == v.last()@,
{
    assert(frame_views(v.drop_last()) =~= frame_views(v).drop_last());
}

proof fn lemma_stack_push(v: Seq<Macro>, m: Macro)
    requires
        stack_wf(v),
        m.wf(),
    ensures
        stack_wf(v.push(m)),
        frame_views(v.push(m)) == frame_views(v).push(m@),
{
    assert(frame_views(v.push(m)) =~= frame_views(v).push(m@));
    assert forall|i: int| 0 <= i < v.push(m).len() implies #[trigger] v.push(m)[i].wf() by {
        if i < v.len() {
            assert(v.push(m)[i] == v[i]);
        }
    }
}

proof fn lemma_views_replace_last(v: Seq<Vec<char>>, a: Vec<char>)
    requires
        v.len() > 0,
    ensures
        views(v.drop_last().push(a)) == views(v).drop_last().push(a@),
        views(v).last() == v.last()@,
{
    assert(views(v.drop_last().push(a)) =~= views(v).drop_last().push(a@));
}

proof fn lemma_views_push(v: Seq<Vec<char>>, a: Vec<char>)
    ensures
        views(v.push(a)) == views(v).push(a@),
{
    assert(views(v.push(a)) =~= views(v).push(a@));
}

/// A streaming macro processor.
pub struct M4 {
    pending: Option<Macro>,
    macro_stack: Vec<Macro>,
    skip_whitespace: bool,
    output: Vec<char>,
    tokenizer: Tokenizer,
    macros: MacroTable,
}

impl View for M4 {
    type V = EngineV;

    closed spec fn view(&self) -> EngineV {
        EngineV {
            input: self.tokenizer@.input,
            at_end: self.tokenizer@.end,
            pending: match self.pending {
                Some(m) => Some(m@),
                None => None,
            },
            stack: frame_views(self.macro_stack@),
            skip_ws: self.skip_whitespace,
            output: self.output@,
            macros: self.macros@,
        }
    }
}

impl M4 {
    pub closed spec fn wf(&self) -> bool {
        &&& self.tokenizer.wf()
        &&& self.macros.wf()
        &&& (self.pending matches Some(m) ==> m.wf() && m.parens == 0)
        &&& stack_wf(self.macro_stack@)
    }

    /// A processor with no definitions, no input and no output.
    pub fn new() -> (r: Self)
        ensures
            r.wf(),
            r@ == initial(),
    {
        let r = M4 {
            pending: None,
            macro_stack: Vec::new(),
            skip_whitespace: false,
            output: Vec::new(),
            tokenizer: Tokenizer::new(),
            macros: MacroTable::new(),
        };
        assert(r@.stack =~= Seq::<FrameV>::empty());
        assert(r@ == initial());
        r
    }

    /// Defines `name` as `value`, replacing an earlier definition.
    pub fn define(&mut self, name: &Vec<char>, value: &Vec<char>)
        requires
            old(self).wf(),
        ensures
            final(self).wf(),
            final(self)@ == (EngineV { macros: old(self)@.macros.insert(name@, value@), ..old(self)@ }),
    {
        self.macros.insert(name, value);
    }

    /// Completes the call `m`.
    pub fn call_macro(&mut self, m: Macro) -> (r: Result<(), MacroError>)
        requires
            old(self).wf(),
            m.wf(),
        ensures
            final(self).wf(),
            (final(self)@, err_of(r)) == call_macro(old(self)@, m@),
    {
        let word = define_word();
        if same_chars(&m.name, &word) {
            if m.args.len() == 3 {
                assert(views(m.args@)[1] == m.args@[1]@);
                self.define(&m.args[1], &m.args[2]);
                Ok(())
            } else {
                Err(MacroError::DefineArity { given: m.args.len() - 1 })
            }
        } else {
            match expand(&m.value, &m.args) {
                Ok(text) => {
                    self.tokenizer.unshift(&text);
                    Ok(())
                },
                Err(d) => Err(MacroError::UndefinedPlaceholder { name: m.name, index: d }),
            }
        }
    }

    /// Opens the argument list of the pending macro: takes the `(` and makes
    /// the pending macro the innermost call.
    pub fn start_macro_args(&mut self)
        requires
            old(self).wf(),
            old(self)@.pending is Some,
            old(self)@.input.len() > 0,
            old(self)@.input[0] == '(',
        ensures
            final(self).wf(),
            (final(self)@, Ok::<bool, ErrorV>(true)) == resolve_pending(old(self)@),
    {
        let ghost s0 = self@;
        let _paren = self.tokenizer.read();
        let mut m = self.pending.take().unwrap();
        let ghost args0 = m.args@;
        let empty: Vec<char> = Vec::new();
        assert(empty@.len() == 0);
        m.args.push(empty);
        assert(views(m.args@) =~= views(args0).push(Seq::empty()));
        let ghost stack0 = self.macro_stack@;
        assert(m.wf());
        proof {
            lemma_stack_push(stack0, m);
        }
        self.macro_stack.push(m);
        assert(frame_views(self.macro_stack@) =~= frame_views(stack0).push(m@));
        proof {
            lemma_stack_push(stack0, m);
        }
        self.skip_whitespace = true;
        assert(self@.input == s0.input.skip(1));
    }

    /// Decides the pending macro by the next character.
    pub fn process_pending_macro(&mut self) -> (r: Result<bool, MacroError>)
        requires
            old(self).wf(),
            old(self)@.pending is Some,
        ensures
            final(self).wf(),
            (final(self)@, outcome_of(r)) == resolve_pending(old(self)@),
    {
        match self.tokenizer.peek_char() {
            Some(ch) => {
                if ch == '(' {
                    self.start_macro_args();
                    return Ok(true);
                }
            },
            None => {
                if !self.tokenizer.is_finished() {
                    return Ok(false);
                }
            },
        }
        let m = self.pending.take().unwrap();
        assert(self@ == (EngineV { pending: None, ..old(self)@ }));
        match self.call_macro(m) {
            Ok(()) => Ok(true),
            Err(e) => Err(e),
        }
    }

    /// Appends `x` to the last argument of the innermost call.
    fn append_to_arg(&mut self, x: &Vec<char>)
        requires
            old(self).wf(),
            old(self)@.stack.len() > 0,
        ensures
            final(self).wf(),
            final(self)@ == with_top(old(self)@, append_arg(old(self)@.stack.last(), x@)),
    {
        let ghost stack0 = self.macro_stack@;
        proof {
            lemma_stack_pop(stack0);
        }
        let mut top = self.macro_stack.pop().unwrap();
        let ghost args0 = top.args@;
        let mut arg = top.args.pop().unwrap();
        append_chars(&mut arg, x);
        top.args.push(arg);
        proof {
            lemma_views_replace_last(args0, arg);
            lemma_stack_push(stack0.drop_last(), top);
        }
        self.macro_stack.push(top);
    }

    /// Appends `x` to the output.
    pub fn push_output(&mut self, x: &Vec<char>)
        requires
            old(self).wf(),
        ensures
            final(self).wf(),
            final(self)@ == (EngineV { output: old(self)@.output + x@, ..old(self)@ }),
    {
        append_chars(&mut self.output, x);
    }

    /// Handles a literal character read inside the arguments of the innermost call.
    pub fn process_literal_in_macro(&mut self, c: char) -> (r: Result<(), MacroError>)
        requires
            old(self).wf(),
            old(self)@.stack.len() > 0,
        ensures
            final(self).wf(),
            (final(self)@, err_of(r)) == literal_in_macro(old(self)@, c),
    {
        let ghost s0 = self@;
        let ghost stack0 = self.macro_stack@;
        proof {
            lemma_stack_pop(stack0);
        }
        let mut top = self.macro_stack.pop().unwrap();
        if c == ')' && top.parens == 0 {
            assert(self@ == (EngineV { stack: s0.stack.drop_last(), ..s0 }));
            return self.call_macro(top);
        }
        let ghost args0 = top.args@;
        if c == ',' && top.parens == 0 {
            let empty: Vec<char> = Vec::new();
            assert(empty@.len() == 0);
            top.args.push(empty);
            proof {
                lemma_views_push(args0, empty);
                lemma_stack_push(stack0.drop_last(), top);
            }
            self.macro_stack.push(top);
            self.skip_whitespace = true;
            return Ok(());
        }
        let mut arg = top.args.pop().unwrap();
        let ghost arg0 = arg@;
        arg.push(c);
        assert(arg@ =~= arg0 + seq![c]);
        let arg_len = arg.len();
        top.args.push(arg);
        if c == ')' {
            top.parens -= 1;
        } else if c == '(' {
            assert(top.parens < arg_len);
            top.parens += 1;
        }
        proof {
            lemma_views_replace_last(args0, arg);
            lemma_stack_push(stack0.drop_last(), top);
        }
        self.macro_stack.push(top);
        Ok(())
    }

    /// Handles one token taken from the input.
    pub fn process_token(&mut self, token: Token) -> (r: Result<(), MacroError>)
        requires
            old(self).wf(),
            !(token@ is End),
        ensures
            final(self).wf(),
            (final(self)@, err_of(r)) == process_token(old(self)@, token@),
    {
        if self.skip_whitespace {
            if let Token::Literal(c) = token {
                if is_whitespace(c) {
                    return Ok(());
                }
            }
        }
        self.skip_whitespace = false;
        match token {
            Token::Name(n) => {
                let word = define_word();
                let is_define = same_chars(&n, &word);
                match self.macros.get(&n) {
                    Some(v) => {
                        self.pending = Some(Macro::new(&n, &v));
                        return Ok(());
                    },
                    None => {
                        if is_define {
                            let empty: Vec<char> = Vec::new();
                            self.pending = Some(Macro::new(&n, &empty));
                            assert(empty@ =~= Seq::<char>::empty());
                            return Ok(());
                        }
                    },
                }
                if self.macro_stack.len() == 0 {
                    self.push_output(&n);
                } else {
                    self.append_to_arg(&n);
                }
                Ok(())
            },
            Token::Quoted(q) => {
                if self.macro_stack.len() == 0 {
                    self.push_output(&q);
                } else {
                    self.append_to_arg(&q);
                }
                Ok(())
            },
            Token::Literal(c) => {
                if self.macro_stack.len() == 0 {
                    let ghost out0 = self.output@;
                    self.output.push(c);
                    assert(self.output@ =~= out0 + seq![c]);
                    Ok(())
                } else {
                    self.process_literal_in_macro(c)
                }
            },
            Token::End => Ok(()),
        }
    }

    /// Takes one step: decides a pending macro, or reads and handles one token.
    /// `Ok(true)` when it moved on, `Ok(false)` when it waits for more input or
    /// the input has ended cleanly.
    pub fn step(&mut self) -> (r: Result<bool, MacroError>)
        requires
            old(self).wf(),
        ensures
            final(self).wf(),
            (final(self)@, outcome_of(r)) == step(old(self)@),
    {
        if self.pending.is_some() {
            return self.process_pending_macro();
        }
        let ghost s0 = self@;
        match self.tokenizer.read() {
            LexResult::NeedMore => Ok(false),
            LexResult::Unterminated => Err(MacroError::UnterminatedQuote),
            LexResult::Token(Token::End) => {
                assert(self@.input =~= s0.input);
                let len = self.macro_stack.len();
                if len > 0 {
                    let mut name: Vec<char> = Vec::new();
                    append_chars(&mut name, &self.macro_stack[len - 1].name);
                    Err(MacroError::UnterminatedCall { name })
                } else {
                    Ok(false)
                }
            },
            LexResult::Token(t) => {
                match self.process_token(t) {
                    Ok(()) => Ok(true),
                    Err(e) => Err(e),
                }
            },
        }
    }

    /// Steps until the processor waits or fails, at most `fuel` times.
    pub fn run(&mut self, fuel: u64) -> (r: Result<(), MacroError>)
        requires
            old(self).wf(),
        ensures
            final(self).wf(),
            (final(self)@, err_of(r)) == run(old(self)@, fuel as nat),
    {
        let mut left = fuel;
        while left > 0
            invariant
                self.wf(),
                run(old(self)@, fuel as nat) == run(self@, left as nat),
            decreases left,
        {
            match self.step() {
                Ok(true) => {
                    left -= 1;
                },
                Ok(false) => {
                    return Ok(());
                },
                Err(e) => {
                    return Err(e);
                },
            }
        }
        Err(MacroError::StepLimit)
    }

    /// Feeds a chunk of input and expands all that it completes.
    pub fn write(&mut self, chunk: &str) -> (r: Result<(), MacroError>)
        requires
            old(self).wf(),
        ensures
            final(self).wf(),
            (final(self)@, err_of(r)) == run(
                EngineV { input: old(self)@.input + chunk@, ..old(self)@ },
                STEP_LIMIT as nat,
            ),
    {
        let text = chars_of(chunk);
        self.tokenizer.push(&text);
        self.run(STEP_LIMIT)
    }

    /// Marks the end of the input and expands what remains: a name at the
    /// very end is taken as complete, a pending macro is called with no
    /// arguments, and an open quote or call is an error.
    pub fn finish(&mut self) -> (r: Result<(), MacroError>)
        requires
            old(self).wf(),
        ensures
            final(self).wf(),
            (final(self)@, err_of(r)) == run(
                EngineV { at_end: true, ..old(self)@ },
                STEP_LIMIT as nat,
            ),
    {
        self.tokenizer.finish();
        self.run(STEP_LIMIT)
    }

    /// The expanded output so far.
    pub fn output(&self) -> (r: String)
        ensures
            r@ == self@.output,
    {
        string_of(&self.output)
    }

    /// Hands out the expanded output so far and clears it.
    pub fn take_output(&mut self) -> (r: String)
        requires
            old(self).wf(),
        ensures
            final(self).wf(),
            r@ == old(self)@.output,
            final(self)@ == (EngineV { output: Seq::empty(), ..old(self)@ }),
    {
        let r = string_of(&self.output);
        self.output = Vec::new();
        assert(self@.output =~= Seq::<char>::empty());
        r
    }

    /// The template defined for `name`, if any.
    pub fn definition(&self, name: &str) -> (r: Option<String>)
        requires
            self.wf(),
        ensures
            match r {
                Some(v) => self@.macros.contains_key(name@) && v@ == self@.macros[name@],
                None => !self@.macros.contains_key(name@),
            },
    {
        let n = chars_of(name);
        match self.macros.get(&n) {
            Some(v) => Some(string_of(&v)),
            None => None,
        }
    }
} // impl M4

} // verus!
