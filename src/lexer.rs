//! The tokenizer: a buffer of unconsumed input, and a pure function from that
//! buffer to the next token.
use vstd::prelude::*;

verus! {

/// Opens a quoted string.
pub const LEFT_QUOTE: char = '`';

/// Closes a quoted string.
pub const RIGHT_QUOTE: char = '\'';

/// A token of the input.
pub enum Token {
    /// A run of letters and underscores.
    Name(Vec<char>),
    /// The text between an outermost pair of quotes.
    Quoted(Vec<char>),
    /// Any other single character.
    Literal(char),
    /// The input is exhausted and no more will come.
    End,
}

/// The mathematical value of a token.
pub enum TokenV {
    Name(Seq<char>),
    Quoted(Seq<char>),
    Literal(char),
    End,
}

impl View for Token {
    type V = TokenV;

    open spec fn view(&self) -> TokenV {
        match self {
            Token::Name(n) => TokenV::Name(n@),
            Token::Quoted(q) => TokenV::Quoted(q@),
            Token::Literal(c) => TokenV::Literal(*c),
            Token::End => TokenV::End,
        }
    }
}

/// The text a token contributes when it is copied through unchanged.
pub open spec fn token_text(t: TokenV) -> Seq<char> {
    match t {
        TokenV::Name(n) => n,
        TokenV::Quoted(q) => q,
        TokenV::Literal(c) => seq![c],
        TokenV::End => Seq::empty(),
    }
}

/// Characters that make up a name.
pub open spec fn is_name_char(c: char) -> bool {
    ('a' <= c && c <= 'z') || ('A' <= c && c <= 'Z') || c == '_'
}

/// The end of the run of name characters in `s` that starts at `i`.
pub open spec fn name_end(s: Seq<char>, i: int) -> int
    decreases s.len() - i,
{
    if 0 <= i < s.len() && is_name_char(s[i]) {
        name_end(s, i + 1)
    } else {
        i
    }
}

/// Scanning `s` from `i` inside a quoted string nested `depth` deep: the index
/// of the closing quote that brings the depth to zero, if `s` holds one.
pub open spec fn quote_end(s: Seq<char>, i: int, depth: nat) -> Option<int>
    decreases s.len() - i,
{
    if i < 0 || i >= s.len() {
        None
    } else if s[i] == LEFT_QUOTE {
        quote_end(s, i + 1, depth + 1)
    } else if s[i] == RIGHT_QUOTE {
        if depth <= 1 {
            Some(i)
        } else {
            quote_end(s, i + 1, (depth - 1) as nat)
        }
    } else {
        quote_end(s, i + 1, depth)
    }
}

/// What the lexer makes of the unconsumed input `s`.
pub enum Lexed {
    /// A token, and how many characters of `s` it takes.
    Token(TokenV, nat),
    /// The input so far does not complete a token.
    NeedMore,
    /// The input has ended inside a quoted string.
    Unterminated,
}

/// The next token of `s`; `at_end` tells that no input will follow `s`.
pub open spec fn lex(s: Seq<char>, at_end: bool) -> Lexed {
    if s.len() == 0 {
        if at_end {
            Lexed::Token(TokenV::End, 0)
        } else {
            Lexed::NeedMore
        }
    } else if is_name_char(s[0]) {
        let n = name_end(s, 0);
        if n == s.len() && !at_end {
            Lexed::NeedMore
        } else {
            Lexed::Token(TokenV::Name(s.subrange(0, n)), n as nat)
        }
    } else if s[0] == LEFT_QUOTE {
        match quote_end(s, 1, 1) {
            Some(j) => Lexed::Token(TokenV::Quoted(s.subrange(1, j)), (j + 1) as nat),
            None => if at_end {
                Lexed::Unterminated
            } else {
                Lexed::NeedMore
            },
        }
    } else {
        Lexed::Token(TokenV::Literal(s[0]), 1)
    }
}

/// A run of name characters from `i` to `j` that stops at `j` ends there.
pub proof fn lemma_name_end(s: Seq<char>, i: int, j: int)
    requires
        0 <= i <= j <= s.len(),
        forall|k: int| i <= k < j ==> is_name_char(#[trigger] s[k]),
        j == s.len() || !is_name_char(s[j]),
    ensures
        name_end(s, i) == j,
    decreases j - i,
{
    if i < j {
        lemma_name_end(s, i + 1, j);
    }
}

/// The result of reading one token.
pub enum LexResult {
    Token(Token),
    NeedMore,
    Unterminated,
}

/// Whether `c` may stand in a name.
pub fn is_literal_char(c: char) -> (r: bool)
    ensures
        r == is_name_char(c),
{
    (c >= 'a' && c <= 'z') || (c >= 'A' && c <= 'Z') || (c == '_')
}

/// The unconsumed input of the tokenizer, and whether the input has ended.
pub struct TokenizerV {
    pub input: Seq<char>,
    pub end: bool,
}

/// Holds the input that has not been turned into tokens yet.
pub struct Tokenizer {
    source: Vec<char>,
    source_idx: usize,
    end: bool,
}

impl View for Tokenizer {
    type V = TokenizerV;

    closed spec fn view(&self) -> TokenizerV {
        TokenizerV {
            input: self.source@.subrange(self.source_idx as int, self.source@.len() as int),
            end: self.end,
        }
    }
}

impl Tokenizer {
    pub closed spec fn wf(&self) -> bool {
        self.source_idx <= self.source@.len()
    }

    /// The buffer holds no consumed prefix.
    pub closed spec fn flushed(&self) -> bool {
        self.source_idx == 0
    }

    /// An empty tokenizer whose input is still open.
    pub fn new() -> (r: Self)
        ensures
            r.wf(),
            r@.input == Seq::<char>::empty(),
            !r@.end,
    {
        let r = Tokenizer { source: Vec::new(), source_idx: 0, end: false };
        assert(r@.input =~= Seq::<char>::empty());
        r
    }

    /// Drops the consumed prefix of the buffer.
    pub fn flush(&mut self)
        requires
            old(self).wf(),
        ensures
            final(self).wf(),
            final(self)@ == old(self)@,
            final(self).flushed(),
    {
        let mut rest: Vec<char> = Vec::new();
        let mut i: usize = self.source_idx;
        while i < self.source.len()
            invariant
                self.source_idx <= i <= self.source@.len(),
                rest@ == self.source@.subrange(self.source_idx as int, i as int),
            decreases self.source@.len() - i,
        {
            rest.push(self.source[i]);
            i += 1;
            assert(rest@ =~= self.source@.subrange(self.source_idx as int, i as int));
        }
        self.source = rest;
        self.source_idx = 0;
        assert(self.source@ =~= self.source@.subrange(0, self.source@.len() as int));
    }

    /// Appends `st` after the unconsumed input.
    pub fn push(&mut self, st: &Vec<char>)
        requires
            old(self).wf(),
        ensures
            final(self).wf(),
            final(self)@.input == old(self)@.input + st@,
            final(self)@.end == old(self)@.end,
    {
        self.flush();
        crate::text::append_chars(&mut self.source, st);
        assert(self@.input =~= old(self)@.input + st@);
    }

    /// Puts `st` in front of the unconsumed input, to be read next.
    pub fn unshift(&mut self, st: &Vec<char>)
        requires
            old(self).wf(),
        ensures
            final(self).wf(),
            final(self)@.input == st@ + old(self)@.input,
            final(self)@.end == old(self)@.end,
    {
        self.flush();
        let mut joined: Vec<char> = Vec::new();
        crate::text::append_chars(&mut joined, st);
        crate::text::append_chars(&mut joined, &self.source);
        self.source = joined;
        assert(self@.input =~= st@ + old(self)@.input);
    }

    /// Marks the input as ended: no more will be pushed.
    pub fn finish(&mut self)
        requires
            old(self).wf(),
        ensures
            final(self).wf(),
            final(self)@.input == old(self)@.input,
            final(self)@.end,
    {
        self.end = true;
    }

    /// Whether the input has been marked as ended.
    pub fn is_finished(&self) -> (r: bool)
        ensures
            r == self@.end,
    {
        self.end
    }

    /// The next unconsumed character, without consuming it.
    pub fn peek_char(&self) -> (r: Option<char>)
        requires
            self.wf(),
        ensures
            r == (if self@.input.len() > 0 {
                Some(self@.input[0])
            } else {
                None::<char>
            }),
    {
        if self.source_idx < self.source.len() {
            Some(self.source[self.source_idx])
        } else {
            None
        }
    }

    /// Reads the next token, if the input holds a complete one.
    pub fn read(&mut self) -> (r: LexResult)
        requires
            old(self).wf(),
        ensures
            final(self).wf(),
            final(self)@.end == old(self)@.end,
            match lex(old(self)@.input, old(self)@.end) {
                Lexed::Token(t, n) => r matches LexResult::Token(tok) && tok@ == t
                    && final(self)@.input == old(self)@.input.skip(n as int),
                Lexed::NeedMore => r is NeedMore && final(self)@ == old(self)@,
                Lexed::Unterminated => r is Unterminated && final(self)@ == old(self)@,
            },
    {
        if self.source_idx >= self.source.len() {
            if self.end {
                return LexResult::Token(Token::End);
            } else {
                return LexResult::NeedMore;
            }
        }
        let c = self.source[self.source_idx];
        if is_literal_char(c) {
            return self.read_name();
        }
        if c == LEFT_QUOTE {
            return self.read_string();
        }
        self.source_idx += 1;
        assert(self@.input =~= old(self)@.input.skip(1));
        LexResult::Token(Token::Literal(c))
    }

    /// Reads a name that starts at the next character.
    pub fn read_name(&mut self) -> (r: LexResult)
        requires
            old(self).wf(),
            old(self)@.input.len() > 0,
            is_name_char(old(self)@.input[0]),
        ensures
            final(self).wf(),
            final(self)@.end == old(self)@.end,
            match lex(old(self)@.input, old(self)@.end) {
                Lexed::Token(t, n) => r matches LexResult::Token(tok) && tok@ == t
                    && final(self)@.input == old(self)@.input.skip(n as int),
                Lexed::NeedMore => r is NeedMore && final(self)@ == old(self)@,
                Lexed::Unterminated => false,
            },
    {
        let ghost input = self@.input;
        let start = self.source_idx;
        let len = self.source.len();
        let mut name: Vec<char> = Vec::new();
        let mut j: usize = start;
        while j < len && is_literal_char(self.source[j])
            invariant
                start <= j <= len,
                len == self.source@.len(),
                self.source_idx == start,
                input == self.source@.subrange(start as int, len as int),
                forall|k: int| 0 <= k < j - start ==> is_name_char(#[trigger] input[k]),
                name@ == input.subrange(0, j - start),
            decreases len - j,
        {
            name.push(self.source[j]);
            j += 1;
            assert(name@ =~= input.subrange(0, j - start));
        }
        proof {
            lemma_name_end(input, 0, j - start);
        }
        if j == len && !self.end {
            return LexResult::NeedMore;
        }
        self.source_idx = j;
        assert(self@.input =~= input.skip(j - start));
        LexResult::Token(Token::Name(name))
    }

    /// Reads a quoted string whose opening quote is the next character.
    pub fn read_string(&mut self) -> (r: LexResult)
        requires
            old(self).wf(),
            old(self)@.input.len() > 0,
            old(self)@.input[0] == LEFT_QUOTE,
        ensures
            final(self).wf(),
            final(self)@.end == old(self)@.end,
            match lex(old(self)@.input, old(self)@.end) {
                Lexed::Token(t, n) => r matches LexResult::Token(tok) && tok@ == t
                    && final(self)@.input == old(self)@.input.skip(n as int),
                Lexed::NeedMore => r is NeedMore && final(self)@ == old(self)@,
                Lexed::Unterminated => r is Unterminated && final(self)@ == old(self)@,
            },
    {
        let ghost input = self@.input;
        let start = self.source_idx;
        let len = self.source.len();
        let mut text: Vec<char> = Vec::new();
        let mut quotes: usize = 1;
        let mut j: usize = start + 1;
        while j < len
            invariant
                start < j <= len,
                len == self.source@.len(),
                self.source_idx == start,
                input == self.source@.subrange(start as int, len as int),
                self.end == old(self).end,
                input == old(self)@.input,
                input[0] == LEFT_QUOTE,
                1 <= quotes <= j - start,
                quote_end(input, 1, 1) == quote_end(input, j - start, quotes as nat),
                text@ == input.subrange(1, j - start),
            decreases len - j,
        {
            let c = self.source[j];
            if c == LEFT_QUOTE {
                quotes += 1;
            } else if c == RIGHT_QUOTE {
                if quotes == 1 {
                    assert(input[j - start] == RIGHT_QUOTE);
                    assert(quote_end(input, j - start, 1) == Some(j - start));
                    self.source_idx = j + 1;
                    assert(self@.input =~= input.skip(j + 1 - start));
                    return LexResult::Token(Token::Quoted(text));
                }
                quotes -= 1;
            }
            text.push(c);
            j += 1;
            assert(text@ =~= input.subrange(1, j - start));
        }
        if self.end {
            LexResult::Unterminated
        } else {
            LexResult::NeedMore
        }
    }
}

} // verus!
