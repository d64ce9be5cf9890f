//! Properties of the processor that relate several steps or calls.
use vstd::prelude::*;
use crate::engine::{call_macro, define_name, literal_in_macro, step, EngineV, FrameV};
use crate::lexer::{is_name_char, lex, quote_end, Lexed, TokenV, LEFT_QUOTE, RIGHT_QUOTE};
use crate::text::white_space;

verus! {

/// Defining the same name twice leaves only the later template in effect: the
/// state is as if only the second definition had been made, and the calls
/// already in progress, which hold the templates they started with, are
/// untouched.
pub proof fn lemma_redefinition_keeps_latest(
    s: EngineV,
    first: FrameV,
    second: FrameV,
    name: Seq<char>,
    t1: Seq<char>,
    t2: Seq<char>,
)
    requires
        first.name == define_name(),
        first.args == seq![define_name(), name, t1],
        second.name == define_name(),
        second.args == seq![define_name(), name, t2],
    ensures
        call_macro(call_macro(s, first).0, second) == call_macro(s, second),
        call_macro(s, second).1 is None,
        call_macro(s, second).0.macros[name] == t2,
        call_macro(s, second).0.stack == s.stack,
        call_macro(s, second).0.pending == s.pending,
        call_macro(s, second).0.input == s.input,
{
    assert(s.macros.insert(name, t1).insert(name, t2) =~= s.macros.insert(name, t2));
}

proof fn lemma_plain_quote_end(s: Seq<char>, i: int, j: int)
    requires
        1 <= i <= j < s.len(),
        s[j] == RIGHT_QUOTE,
        forall|k: int| i <= k < j ==> #[trigger] s[k] != LEFT_QUOTE && s[k] != RIGHT_QUOTE,
    ensures
        quote_end(s, i, 1) == Some(j),
    decreases j - i,
{
    if i < j {
        lemma_plain_quote_end(s, i + 1, j);
    }
}

/// Quoted text is not expanded: with no call open or pending, a quoted string
/// with no quote characters inside goes to the output as it stands, without
/// its quotes, whatever macros are defined.
pub proof fn lemma_quoting_suppresses_expansion(s: EngineV, q: Seq<char>, rest: Seq<char>)
    requires
        s.pending is None,
        s.stack.len() == 0,
        s.input == seq![LEFT_QUOTE] + q + seq![RIGHT_QUOTE] + rest,
        forall|k: int| 0 <= k < q.len() ==> #[trigger] q[k] != LEFT_QUOTE && q[k] != RIGHT_QUOTE,
    ensures
        step(s) == (EngineV { input: rest, skip_ws: false, output: s.output + q, ..s }, Ok::<
            bool,
            crate::engine::ErrorV,
        >(true)),
{
    let input = s.input;
    let j: int = q.len() as int + 1;
    assert forall|k: int| 1 <= k < j implies #[trigger] input[k] != LEFT_QUOTE && input[k]
        != RIGHT_QUOTE by {
        assert(input[k] == q[k - 1]);
    }
    lemma_plain_quote_end(input, 1, j);
    assert(input.subrange(1, j) =~= q);
    assert(input.skip(j + 1) =~= rest);
    assert(lex(input, s.at_end) == Lexed::Token(TokenV::Quoted(q), (j + 1) as nat));
}

/// Whitespace that follows an argument separator is dropped: a `,` at the
/// top level of the innermost call starts a new, empty argument and sets the
/// skip flag, and while that flag is set a whitespace character is consumed
/// without changing anything else.
pub proof fn lemma_whitespace_after_separator_dropped(s: EngineV, sep: EngineV)
    requires
        sep.stack.len() > 0,
        sep.stack.last().parens == 0,
        s.pending is None,
        s.skip_ws,
        s.input.len() > 0,
        white_space(s.input[0]),
        !is_name_char(s.input[0]),
        s.input[0] != LEFT_QUOTE,
    ensures
        literal_in_macro(sep, ',').0.skip_ws,
        literal_in_macro(sep, ',').0.stack.last().args.last() == Seq::<char>::empty(),
        step(s) == (EngineV { input: s.input.skip(1), ..s }, Ok::<bool, crate::engine::ErrorV>(true)),
{
}

} // verus!
