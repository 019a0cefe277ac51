//! The translation pipeline: normalization, lexing, grammar validation,
//! command building, and encoding into the memory image.

use crate::command::Command;
use crate::error::{CompileError, ErrorModel};
use crate::token::Token;
use vstd::prelude::*;

verus! {

/// The number of memory cells of the target machine.
pub const MEMORY_SIZE: usize = 100;

// ---------------------------------------------------------------------------
// Normalization
// ---------------------------------------------------------------------------

/// Characters kept by source normalization: everything except carriage
/// returns and tabs.
pub open spec fn keep_char(c: char) -> bool {
    c != '\r' && c != '\t'
}

/// The characters of `s` with carriage returns and tabs removed, in order.
pub open spec fn strip_spec(s: Seq<char>) -> Seq<char>
    decreases s.len(),
{
    if s.len() == 0 {
        Seq::empty()
    } else if keep_char(s.last()) {
        strip_spec(s.drop_last()).push(s.last())
    } else {
        strip_spec(s.drop_last())
    }
}

/// Normalized source: carriage returns and tabs removed, and a trailing
/// line terminator guaranteed.
pub open spec fn prepare_spec(s: Seq<char>) -> Seq<char> {
    strip_spec(s).push('\n')
}

// ---------------------------------------------------------------------------
// Word scanning
// ---------------------------------------------------------------------------

/// `acc` extended by `buf` if `buf` holds a word, else `acc` unchanged.
pub open spec fn flush_word(acc: Seq<Seq<char>>, buf: Seq<char>) -> Seq<Seq<char>> {
    if buf.len() > 0 {
        acc.push(buf)
    } else {
        acc
    }
}

/// One step per character of the word scan: spaces and line ends close the
/// pending word, and a line end is itself kept as the word `"\n"`.
pub open spec fn words_loop(s: Seq<char>, i: int, buf: Seq<char>, acc: Seq<Seq<char>>) -> Seq<
    Seq<char>,
>
    decreases s.len() - i,
{
    if i < 0 || i >= s.len() {
        flush_word(acc, buf)
    } else if s[i] == ' ' {
        words_loop(s, i + 1, Seq::empty(), flush_word(acc, buf))
    } else if s[i] == '\n' {
        words_loop(s, i + 1, Seq::empty(), flush_word(acc, buf).push(seq!['\n']))
    } else {
        words_loop(s, i + 1, buf.push(s[i]), acc)
    }
}

/// The words of `s`: maximal runs of non-separator characters, with each
/// line end kept as its own word.
pub open spec fn words_spec(s: Seq<char>) -> Seq<Seq<char>> {
    words_loop(s, 0, Seq::empty(), Seq::empty())
}

// ---------------------------------------------------------------------------
// Integer literals
// ---------------------------------------------------------------------------

/// A decimal digit, by its code point.
pub open spec fn is_digit_char(c: char) -> bool {
    48 <= c as u32 <= 57
}

/// The value of a decimal digit.
pub open spec fn digit_val(c: char) -> int {
    c as u32 - 48
}

/// Every character of `s` is a decimal digit.
pub open spec fn all_digits(s: Seq<char>) -> bool {
    forall|i: int| 0 <= i < s.len() ==> is_digit_char(#[trigger] s[i])
}

/// The value of a digit string, most significant digit first.
pub open spec fn digits_val(s: Seq<char>) -> int
    decreases s.len(),
{
    if s.len() == 0 {
        0
    } else {
        digits_val(s.drop_last()) * 10 + digit_val(s.last())
    }
}

/// How a word parses as a 16-bit signed integer: an optional sign, then at
/// least one digit, with the value inside `i16`'s range.
pub open spec fn parse_i16_spec(w: Seq<char>) -> Option<i16> {
    let negative = w.len() > 0 && w[0] == '-';
    let signed = w.len() > 0 && (w[0] == '-' || w[0] == '+');
    let digits = if signed {
        w.skip(1)
    } else {
        w
    };
    if digits.len() == 0 || !all_digits(digits) {
        None
    } else if negative {
        if digits_val(digits) <= 32768 {
            Some((-digits_val(digits)) as i16)
        } else {
            None
        }
    } else {
        if digits_val(digits) <= 32767 {
            Some(digits_val(digits) as i16)
        } else {
            None
        }
    }
}

/// A digit string's value is nonnegative and only grows as digits are
/// appended: the value of any prefix bounds the value of the whole.
pub proof fn lemma_digits_val_monotone(s: Seq<char>, k: int)
    requires
        all_digits(s),
        0 <= k <= s.len(),
    ensures
        0 <= digits_val(s.take(k)) <= digits_val(s),
    decreases s.len(),
{
    if s.len() == 0 {
    } else {
        assert(all_digits(s.drop_last())) by {
            assert(forall|i: int|
                0 <= i < s.drop_last().len() ==> s.drop_last()[i] == s[i]);
        }
        lemma_digits_val_monotone(s.drop_last(), if k <= s.len() - 1 {
            k
        } else {
            s.len() - 1
        });
        if k == s.len() {
            assert(s.take(k) =~= s);
        } else {
            assert(s.take(k) =~= s.drop_last().take(k));
        }
    }
}

// ---------------------------------------------------------------------------
// Word classification
// ---------------------------------------------------------------------------

/// The token a reserved word lexes to: one of the eleven mnemonics, or the
/// line terminator.
pub open spec fn mnemonic_token(w: Seq<char>) -> Option<Token> {
    if w == seq!['L', 'D', 'A'] {
        Some(Token::Load)
    } else if w == seq!['S', 'T', 'A'] {
        Some(Token::Store)
    } else if w == seq!['A', 'D', 'D'] {
        Some(Token::Add)
    } else if w == seq!['S', 'U', 'B'] {
        Some(Token::Subtract)
    } else if w == seq!['I', 'N', 'P'] {
        Some(Token::Input)
    } else if w == seq!['O', 'U', 'T'] {
        Some(Token::Output)
    } else if w == seq!['H', 'L', 'T'] {
        Some(Token::End)
    } else if w == seq!['B', 'R', 'A'] {
        Some(Token::BranchAll)
    } else if w == seq!['B', 'R', 'Z'] {
        Some(Token::BranchZero)
    } else if w == seq!['B', 'R', 'P'] {
        Some(Token::BranchZeroPos)
    } else if w == seq!['D', 'A', 'T'] {
        Some(Token::DataStore)
    } else if w == seq!['\n'] {
        Some(Token::Endline)
    } else {
        None
    }
}

/// How a word lexes: a reserved word maps to its token, anything else must
/// parse as a 16-bit integer literal, and a word that does neither is a
/// lexical error.
pub open spec fn classify_spec(w: Seq<char>) -> Option<Token> {
    match mnemonic_token(w) {
        Some(t) => Some(t),
        None => match parse_i16_spec(w) {
            Some(v) => Some(Token::IntLiteral(v)),
            None => None,
        },
    }
}

/// One step per word of the lexer: the first unclassifiable word aborts the
/// compile with a lexical error naming it.
pub open spec fn tokenise_loop(ws: Seq<Seq<char>>, i: int, acc: Seq<Token>) -> Result<
    Seq<Token>,
    ErrorModel,
>
    decreases ws.len() - i,
{
    if i < 0 || i >= ws.len() {
        Ok(acc)
    } else {
        match classify_spec(ws[i]) {
            Some(t) => tokenise_loop(ws, i + 1, acc.push(t)),
            None => Err(ErrorModel::Lex(ws[i])),
        }
    }
}

/// The token sequence of a word sequence, or the first lexical error.
pub open spec fn tokenise_spec(ws: Seq<Seq<char>>) -> Result<Seq<Token>, ErrorModel> {
    tokenise_loop(ws, 0, Seq::empty())
}

// ---------------------------------------------------------------------------
// Grammar validation
// ---------------------------------------------------------------------------

/// Whether a token is in the permitted-next-token set: either listed
/// itself, or a concrete integer literal matched by the abstract literal
/// tag.
pub open spec fn token_allowed(valid: Seq<Token>, t: Token) -> bool {
    valid.contains(t) || (valid.contains(Token::IntLiteralNoData) && t is IntLiteral)
}

/// `groups` extended by `buf` if `buf` holds a line's tokens, else
/// `groups` unchanged: blank lines produce no group.
pub open spec fn flush_group(groups: Seq<Seq<Token>>, buf: Seq<Token>) -> Seq<Seq<Token>> {
    if buf.len() > 0 {
        groups.push(buf)
    } else {
        groups
    }
}

/// One step per token of the grammar state machine.  The permitted set is
/// recomputed from the token just processed; a line end closes the current
/// group; the first token outside the permitted set aborts the compile.
pub open spec fn validate_loop(
    ts: Seq<Token>,
    i: int,
    valid: Seq<Token>,
    buf: Seq<Token>,
    groups: Seq<Seq<Token>>,
) -> Result<Seq<Seq<Token>>, ErrorModel>
    decreases ts.len() - i,
{
    if i < 0 || i >= ts.len() {
        Ok(groups)
    } else {
        let t = ts[i];
        if !token_allowed(valid, t) {
            Err(ErrorModel::Grammar(t))
        } else if t == Token::Endline {
            validate_loop(
                ts,
                i + 1,
                Token::Endline.next_valid_spec(true),
                Seq::empty(),
                flush_group(groups, buf),
            )
        } else {
            validate_loop(ts, i + 1, t.next_valid_spec(false), buf.push(t), groups)
        }
    }
}

/// The per-line token groups of a token sequence, or the first grammar
/// error.  The initial permitted set is the one following a virtual
/// leading line end: any mnemonic may open the file.
pub open spec fn validate_spec(ts: Seq<Token>) -> Result<Seq<Seq<Token>>, ErrorModel> {
    validate_loop(ts, 0, Token::Endline.next_valid_spec(true), Seq::empty(), Seq::empty())
}

/// For every address mnemonic, the grammar accepts the line
/// `MNEMONIC INT_LITERAL \n` as one group, and rejects the same mnemonic
/// followed directly by the line end (a missing operand, blamed on the
/// line end) or by any mnemonic (blamed on that mnemonic).
pub proof fn lemma_grammar_address_line(mnemonic: Token, value: i16, follower: Token)
    requires
        mnemonic.is_address_mnemonic(),
        follower.is_mnemonic(),
    ensures
        validate_spec(seq![mnemonic, Token::IntLiteral(value), Token::Endline])
            == Ok::<Seq<Seq<Token>>, ErrorModel>(seq![seq![mnemonic, Token::IntLiteral(value)]]),
        validate_spec(seq![mnemonic, Token::Endline]) == Err::<Seq<Seq<Token>>, ErrorModel>(
            ErrorModel::Grammar(Token::Endline),
        ),
        validate_spec(seq![mnemonic, follower]) == Err::<Seq<Seq<Token>>, ErrorModel>(
            ErrorModel::Grammar(follower),
        ),
{
    let start = Token::Endline.next_valid_spec(true);
    let no_groups = Seq::<Seq<Token>>::empty();
    let no_tokens = Seq::<Token>::empty();
    assert(start.contains(mnemonic));
    let after_mnemonic = mnemonic.next_valid_spec(false);
    assert(after_mnemonic.contains(Token::IntLiteralNoData)) by {
        assert(after_mnemonic[0] == Token::IntLiteralNoData);
    }
    let literal = Token::IntLiteral(value);
    let after_literal = literal.next_valid_spec(false);
    assert(after_literal.contains(Token::Endline)) by {
        assert(after_literal[0] == Token::Endline);
    }

    let accepted = seq![mnemonic, literal, Token::Endline];
    let line = no_tokens.push(mnemonic).push(literal);
    assert(validate_loop(accepted, 0, start, no_tokens, no_groups) == validate_loop(
        accepted,
        1,
        after_mnemonic,
        no_tokens.push(mnemonic),
        no_groups,
    ));
    assert(validate_loop(accepted, 1, after_mnemonic, no_tokens.push(mnemonic), no_groups)
        == validate_loop(accepted, 2, after_literal, line, no_groups));
    assert(validate_loop(accepted, 2, after_literal, line, no_groups) == validate_loop(
        accepted,
        3,
        start,
        no_tokens,
        flush_group(no_groups, line),
    ));
    assert(validate_loop(accepted, 3, start, no_tokens, flush_group(no_groups, line))
        == Ok::<Seq<Seq<Token>>, ErrorModel>(no_groups.push(line)));
    assert(no_groups.push(line) =~~= seq![seq![mnemonic, literal]]);

    let missing = seq![mnemonic, Token::Endline];
    assert(!token_allowed(after_mnemonic, Token::Endline));
    assert(validate_loop(missing, 0, start, no_tokens, no_groups) == validate_loop(
        missing,
        1,
        after_mnemonic,
        no_tokens.push(mnemonic),
        no_groups,
    ));
    assert(validate_loop(missing, 1, after_mnemonic, no_tokens.push(mnemonic), no_groups)
        == Err::<Seq<Seq<Token>>, ErrorModel>(ErrorModel::Grammar(Token::Endline)));

    let doubled = seq![mnemonic, follower];
    assert(!token_allowed(after_mnemonic, follower));
    assert(validate_loop(doubled, 0, start, no_tokens, no_groups) == validate_loop(
        doubled,
        1,
        after_mnemonic,
        no_tokens.push(mnemonic),
        no_groups,
    ));
    assert(validate_loop(doubled, 1, after_mnemonic, no_tokens.push(mnemonic), no_groups)
        == Err::<Seq<Seq<Token>>, ErrorModel>(ErrorModel::Grammar(follower)));
}

/// The finite shapes a validated line group can take: an address mnemonic
/// with its literal, a zero-operand mnemonic alone, or a data directive
/// with or without its literal.
pub open spec fn group_wf(g: Seq<Token>) -> bool {
    ||| (g.len() == 2 && g[0].is_address_mnemonic() && g[1] is IntLiteral)
    ||| (g.len() == 1 && g[0].is_plain_mnemonic())
    ||| (g.len() == 1 && g[0] == Token::DataStore)
    ||| (g.len() == 2 && g[0] == Token::DataStore && g[1] is IntLiteral)
}

/// The states the validator's line buffer can be in, tied to the permitted
/// set that goes with each.
pub open spec fn line_state_wf(valid: Seq<Token>, buf: Seq<Token>) -> bool {
    ||| (buf.len() == 0 && valid == Token::Endline.next_valid_spec(true))
    ||| (buf.len() == 1 && buf[0].is_mnemonic() && valid == buf[0].next_valid_spec(false))
    ||| (buf.len() == 2 && group_wf(buf) && valid == buf[1].next_valid_spec(false))
}

// ---------------------------------------------------------------------------
// Command building
// ---------------------------------------------------------------------------

/// The command a validated line group builds to.
///
/// An address mnemonic takes its literal as an address, which must lie in
/// `[0, 99]`; a zero-operand mnemonic maps to its fixed command; a data
/// directive with a literal produces a raw data word with no range
/// restriction; a bare data directive is a deliberate no-operation entry
/// and produces no command.
pub open spec fn build_group_spec(g: Seq<Token>) -> Result<Option<Command>, ErrorModel> {
    if g.len() == 2 && g[0].is_address_mnemonic() && g[1] is IntLiteral {
        let value = g[1]->IntLiteral_0;
        if 0 <= value <= 99 {
            Ok(Some(Command::from_token_spec(g[0], value as u8)))
        } else {
            Err(ErrorModel::OperandRange(value))
        }
    } else if g.len() == 1 && g[0].is_plain_mnemonic() {
        if g[0] == Token::Input {
            Ok(Some(Command::INP))
        } else if g[0] == Token::Output {
            Ok(Some(Command::OUT))
        } else {
            Ok(Some(Command::HLT))
        }
    } else if g.len() == 2 && g[0] == Token::DataStore && g[1] is IntLiteral {
        Ok(Some(Command::DAT(g[1]->IntLiteral_0)))
    } else {
        Ok(None)
    }
}

/// One step per group of the builder: commands are emitted in source line
/// order, and the first out-of-range address operand aborts the compile.
pub open spec fn build_loop(gs: Seq<Seq<Token>>, i: int, acc: Seq<Command>) -> Result<
    Seq<Command>,
    ErrorModel,
>
    decreases gs.len() - i,
{
    if i < 0 || i >= gs.len() {
        Ok(acc)
    } else {
        match build_group_spec(gs[i]) {
            Ok(Some(c)) => build_loop(gs, i + 1, acc.push(c)),
            Ok(None) => build_loop(gs, i + 1, acc),
            Err(e) => Err(e),
        }
    }
}

/// The command sequence of a validated group sequence, or the first
/// operand-range error.
pub open spec fn build_spec(gs: Seq<Seq<Token>>) -> Result<Seq<Command>, ErrorModel> {
    build_loop(gs, 0, Seq::empty())
}

/// For every address mnemonic, the builder accepts exactly the literals in
/// the address space `[0, 99]`: inside it the addressed command is built,
/// and outside it the compile fails with an operand-range error carrying
/// the literal.
pub proof fn lemma_builder_operand_range(mnemonic: Token, value: i16)
    requires
        mnemonic.is_address_mnemonic(),
    ensures
        0 <= value <= 99 ==> build_group_spec(seq![mnemonic, Token::IntLiteral(value)])
            == Ok::<Option<Command>, ErrorModel>(
            Some(Command::from_token_spec(mnemonic, value as u8)),
        ),
        !(0 <= value <= 99) ==> build_group_spec(seq![mnemonic, Token::IntLiteral(value)])
            == Err::<Option<Command>, ErrorModel>(ErrorModel::OperandRange(value)),
{
}

/// The whole front half of the pipeline on a token sequence: grammar
/// validation, then command building.
pub open spec fn cmd_structure_spec(ts: Seq<Token>) -> Result<Seq<Command>, ErrorModel> {
    match validate_spec(ts) {
        Ok(gs) => build_spec(gs),
        Err(e) => Err(e),
    }
}

// ---------------------------------------------------------------------------
// Encoding
// ---------------------------------------------------------------------------

/// The memory image of a command sequence: each command's encoding at its
/// source-order index, and zero in every unused trailing cell.
pub open spec fn image_spec(cmds: Seq<Command>) -> Seq<i16> {
    Seq::new(
        MEMORY_SIZE as nat,
        |i: int|
            if i < cmds.len() {
                cmds[i].encode_spec()
            } else {
                0i16
            },
    )
}

/// Every program of at most 100 commands lays out as an image of exactly
/// 100 cells: the command encodings at indices `[0, count)` and zero in
/// every remaining cell.
pub proof fn lemma_image_layout(cmds: Seq<Command>)
    requires
        cmds.len() <= MEMORY_SIZE,
    ensures
        image_spec(cmds).len() == MEMORY_SIZE,
        forall|i: int| 0 <= i < cmds.len() ==> image_spec(cmds)[i] == cmds[i].encode_spec(),
        forall|i: int| cmds.len() <= i < MEMORY_SIZE ==> image_spec(cmds)[i] == 0i16,
{
}

/// The whole pipeline, from raw source text to the memory image or the
/// first error, scanning the source in order.
pub open spec fn compile_spec(source: Seq<char>) -> Result<Seq<i16>, ErrorModel> {
    match tokenise_spec(words_spec(prepare_spec(source))) {
        Err(e) => Err(e),
        Ok(ts) => match cmd_structure_spec(ts) {
            Err(e) => Err(e),
            Ok(cmds) => if cmds.len() > MEMORY_SIZE {
                Err(ErrorModel::Capacity(cmds.len() as int))
            } else {
                Ok(image_spec(cmds))
            },
        },
    }
}

// ---------------------------------------------------------------------------
// The compiler
// ---------------------------------------------------------------------------

/// The single-pass assembler. Each compile call owns its own buffers and
/// either returns a complete memory image or fails on the first error.
pub struct Compiler {}

impl Compiler {
    /// Build a compiler.
    pub fn new(_file_source: String) -> (r: Compiler) {
        Compiler {  }
    }

    /// Normalize source text: drop carriage returns and tabs and guarantee
    /// a trailing line terminator.
    pub fn prepare_source(file_source: &str) -> (r: Vec<char>)
        ensures
            r@ == prepare_spec(file_source@),
    {
        let n: usize = file_source.unicode_len();
        let mut out: Vec<char> = Vec::new();
        let mut i: usize = 0;
        while i < n
            invariant
                i <= n,
                n == file_source@.len(),
                out@ == strip_spec(file_source@.take(i as int)),
            decreases n - i,
        {
            let c = file_source.get_char(i);
            proof {
                let pre = file_source@.take(i + 1);
                assert(pre.drop_last() =~= file_source@.take(i as int));
                assert(pre.last() == file_source@[i as int]);
            }
            if c != '\r' && c != '\t' {
                out.push(c);
            }
            i += 1;
        }
        proof {
            assert(file_source@.take(n as int) =~= file_source@);
        }
        out.push('\n');
        out
    }

    /// Split normalized source into words: maximal runs of characters
    /// between spaces and line ends, with each line end kept as a word of
    /// its own.
    pub fn acquire_words(file_source: &Vec<char>) -> (r: Vec<Vec<char>>)
        ensures
            r.deep_view() == words_spec(file_source@),
    {
        let ghost s = file_source@;
        let mut words: Vec<Vec<char>> = Vec::new();
        let mut buf: Vec<char> = Vec::new();
        let mut i: usize = 0;
        proof {
            assert(words.deep_view() =~~= Seq::<Seq<char>>::empty());
        }
        while i < file_source.len()
            invariant
                i <= s.len(),
                s == file_source@,
                words_loop(s, i as int, buf@, words.deep_view()) == words_spec(s),
            decreases s.len() - i,
        {
            let ghost old_words = words.deep_view();
            let ghost old_buf = buf@;
            let c = file_source[i];
            if c == ' ' {
                if buf.len() > 0 {
                    words.push(buf);
                    buf = Vec::new();
                } else {
                    proof {
                        assert(old_buf =~= Seq::<char>::empty());
                    }
                }
                proof {
                    assert(words.deep_view() =~~= flush_word(old_words, old_buf));
                    assert(buf@ =~= Seq::<char>::empty());
                }
            } else if c == '\n' {
                if buf.len() > 0 {
                    words.push(buf);
                    buf = Vec::new();
                } else {
                    proof {
                        assert(old_buf =~= Seq::<char>::empty());
                    }
                }
                proof {
                    assert(words.deep_view() =~~= flush_word(old_words, old_buf));
                }
                let mut line_end: Vec<char> = Vec::new();
                line_end.push('\n');
                words.push(line_end);
                proof {
                    assert(line_end@ =~= seq!['\n']);
                    assert(words.deep_view() =~~= flush_word(old_words, old_buf).push(
                        seq!['\n'],
                    ));
                    assert(buf@ =~= Seq::<char>::empty());
                }
            } else {
                buf.push(c);
            }
            i += 1;
        }
        if buf.len() > 0 {
            let ghost old_words = words.deep_view();
            let ghost old_buf = buf@;
            words.push(buf);
            proof {
                assert(words.deep_view() =~~= flush_word(old_words, old_buf));
            }
        }
        words
    }

    /// Parse a word as a 16-bit signed integer.
    fn parse_i16(w: &Vec<char>) -> (r: Option<i16>)
        ensures
            r == parse_i16_spec(w@),
    {
        let mut start: usize = 0;
        let mut negative = false;
        if w.len() > 0 && w[0] == '-' {
            negative = true;
            start = 1;
        } else if w.len() > 0 && w[0] == '+' {
            start = 1;
        }
        let ghost digits = if start == 1 {
            w@.skip(1)
        } else {
            w@
        };
        if w.len() == start {
            return None;
        }
        let limit: u32 = if negative {
            32768
        } else {
            32767
        };
        let mut acc: u32 = 0;
        let mut i: usize = start;
        while i < w.len()
            invariant
                start <= i <= w@.len(),
                start <= 1,
                w@.len() > start,
                negative == (w@.len() > 0 && w@[0] == '-'),
                (start == 1) == (w@.len() > 0 && (w@[0] == '-' || w@[0] == '+')),
                digits == w@.skip(start as int),
                limit == if negative {
                    32768u32
                } else {
                    32767u32
                },
                acc <= limit,
                all_digits(digits.take(i - start)),
                acc == digits_val(digits.take(i - start)),
            decreases w@.len() - i,
        {
            let ghost prefix = digits.take(i - start);
            proof {
                assert(digits.take(i + 1 - start).drop_last() =~= prefix);
                assert(digits.take(i + 1 - start).last() == digits[i - start]);
                assert(digits[i - start] == w@[i as int]);
            }
            let c = w[i];
            let u = c as u32;
            if !(48 <= u && u <= 57) {
                proof {
                    assert(!is_digit_char(digits[i - start]));
                    if start == 0 {
                        assert(w@.skip(0) =~= w@);
                    }
                }
                return None;
            }
            let acc2: u32 = acc * 10 + (u - 48);
            proof {
                assert(acc2 == digits_val(digits.take(i + 1 - start)));
            }
            if acc2 > limit {
                proof {
                    if all_digits(digits) {
                        lemma_digits_val_monotone(digits, i + 1 - start);
                        assert(digits_val(digits) >= acc2);
                        assert(digits.len() > 0);
                        assert(!(digits.len() == 0 || !all_digits(digits)));
                        if negative {
                            assert(digits_val(digits) > 32768);
                            assert(parse_i16_spec(w@) is None);
                        } else {
                            assert(digits_val(digits) > 32767);
                            if start == 0 {
                                assert(w@.skip(0) =~= w@);
                            }
                            assert(parse_i16_spec(w@) is None);
                        }
                    } else {
                        if start == 0 {
                            assert(w@.skip(0) =~= w@);
                        }
                        assert(parse_i16_spec(w@) is None);
                    }
                }
                return None;
            }
            acc = acc2;
            i += 1;
        }
        proof {
            assert(digits.take(w@.len() - start) =~= digits);
            if start == 0 {
                assert(w@.skip(0) =~= w@);
            }
        }
        if negative {
            Some((-(acc as i32)) as i16)
        } else {
            Some(acc as i16)
        }
    }

    /// Whether a word is the given three reserved characters.
    fn word_is(w: &Vec<char>, a: char, b: char, c: char) -> (r: bool)
        ensures
            r == (w@ == seq![a, b, c]),
    {
        let r = w.len() == 3 && w[0] == a && w[1] == b && w[2] == c;
        proof {
            if r {
                assert(w@ =~= seq![a, b, c]);
            }
        }
        r
    }

    /// Classify one word: a reserved word, an integer literal, or neither.
    fn classify_word(w: &Vec<char>) -> (r: Option<Token>)
        ensures
            r == classify_spec(w@),
    {
        if Self::word_is(w, 'L', 'D', 'A') {
            Some(Token::Load)
        } else if Self::word_is(w, 'S', 'T', 'A') {
            Some(Token::Store)
        } else if Self::word_is(w, 'A', 'D', 'D') {
            Some(Token::Add)
        } else if Self::word_is(w, 'S', 'U', 'B') {
            Some(Token::Subtract)
        } else if Self::word_is(w, 'I', 'N', 'P') {
            Some(Token::Input)
        } else if Self::word_is(w, 'O', 'U', 'T') {
            Some(Token::Output)
        } else if Self::word_is(w, 'H', 'L', 'T') {
            Some(Token::End)
        } else if Self::word_is(w, 'B', 'R', 'A') {
            Some(Token::BranchAll)
        } else if Self::word_is(w, 'B', 'R', 'Z') {
            Some(Token::BranchZero)
        } else if Self::word_is(w, 'B', 'R', 'P') {
            Some(Token::BranchZeroPos)
        } else if Self::word_is(w, 'D', 'A', 'T') {
            Some(Token::DataStore)
        } else if w.len() == 1 && w[0] == '\n' {
            proof {
                assert(w@ =~= seq!['\n']);
            }
            Some(Token::Endline)
        } else {
            proof {
                if w@ == seq!['\n'] {
                    assert(w@.len() == 1 && w@[0] == '\n');
                }
            }
            match Self::parse_i16(w) {
                Some(value) => Some(Token::IntLiteral(value)),
                None => None,
            }
        }
    }

    /// Lex a word sequence into tokens, failing on the first word that is
    /// neither a reserved word nor an integer literal.
    pub fn tokenise(word_vector: &Vec<Vec<char>>) -> (r: Result<Vec<Token>, CompileError>)
        ensures
            ({
                let m = tokenise_spec(word_vector.deep_view());
                match r {
                    Ok(tokens) => m == Ok::<Seq<Token>, ErrorModel>(tokens@) && forall|j: int|
                        0 <= j < tokens@.len() ==> tokens@[j] != Token::IntLiteralNoData,
                    Err(e) => m == Err::<Seq<Token>, ErrorModel>(e@),
                }
            }),
    {
        let ghost ws = word_vector.deep_view();
        let mut tokens: Vec<Token> = Vec::new();
        let mut i: usize = 0;
        proof {
            assert(tokens@ =~= Seq::<Token>::empty());
        }
        while i < word_vector.len()
            invariant
                i <= ws.len(),
                ws == word_vector.deep_view(),
                tokenise_loop(ws, i as int, tokens@) == tokenise_spec(ws),
                forall|j: int| 0 <= j < tokens@.len() ==> tokens@[j] != Token::IntLiteralNoData,
            decreases ws.len() - i,
        {
            let word = &word_vector[i];
            proof {
                assert(ws[i as int] == word@);
            }
            match Self::classify_word(word) {
                Some(token) => {
                    tokens.push(token);
                },
                None => {
                    return Err(CompileError::Lex(word.clone()));
                },
            }
            i += 1;
        }
        Ok(tokens)
    }

    /// Whether a token is in the permitted-next-token set.
    fn token_allowed_exec(valid: &Vec<Token>, t: Token) -> (r: bool)
        ensures
            r == token_allowed(valid@, t),
    {
        let mut found = false;
        let mut found_no_data = false;
        let mut i: usize = 0;
        while i < valid.len()
            invariant
                i <= valid@.len(),
                found == valid@.take(i as int).contains(t),
                found_no_data == valid@.take(i as int).contains(Token::IntLiteralNoData),
            decreases valid@.len() - i,
        {
            let ghost pre = valid@.take(i as int);
            proof {
                assert(valid@.take(i + 1).drop_last() =~= pre);
                assert(valid@.take(i + 1).last() == valid@[i as int]);
                assert(forall|x: Token|
                    valid@.take(i + 1).contains(x) == (pre.contains(x) || valid@[i as int] == x));
            }
            if valid[i] == t {
                found = true;
            }
            if valid[i] == Token::IntLiteralNoData {
                found_no_data = true;
            }
            i += 1;
        }
        proof {
            assert(valid@.take(valid@.len() as int) =~= valid@);
        }
        let literal = match t {
            Token::IntLiteral(_) => true,
            _ => false,
        };
        found || (found_no_data && literal)
    }

    /// Run the grammar state machine over the token sequence, partitioning
    /// it into per-line groups.  Every group returned has one of the finite
    /// valid line shapes; the first token outside the permitted set aborts
    /// the compile with a grammar error naming it.
    pub fn create_token_groups_validate(tokens_to_group: &Vec<Token>) -> (r: Result<
        Vec<Vec<Token>>,
        CompileError,
    >)
        requires
            forall|j: int|
                0 <= j < tokens_to_group@.len() ==> tokens_to_group@[j]
                    != Token::IntLiteralNoData,
        ensures
            ({
                let m = validate_spec(tokens_to_group@);
                match r {
                    Ok(groups) => m == Ok::<Seq<Seq<Token>>, ErrorModel>(groups.deep_view())
                        && forall|i: int|
                        0 <= i < groups.deep_view().len() ==> group_wf(
                            #[trigger] groups.deep_view()[i],
                        ),
                    Err(e) => m == Err::<Seq<Seq<Token>>, ErrorModel>(e@),
                }
            }),
    {
        let ghost ts = tokens_to_group@;
        let mut valid: Vec<Token> = Token::Endline.next_valid(true);
        let mut buf: Vec<Token> = Vec::new();
        let mut groups: Vec<Vec<Token>> = Vec::new();
        let mut i: usize = 0;
        proof {
            assert(groups.deep_view() =~~= Seq::<Seq<Token>>::empty());
        }
        while i < tokens_to_group.len()
            invariant
                i <= ts.len(),
                ts == tokens_to_group@,
                forall|j: int| 0 <= j < ts.len() ==> ts[j] != Token::IntLiteralNoData,
                validate_loop(ts, i as int, valid@, buf@, groups.deep_view()) == validate_spec(
                    ts,
                ),
                line_state_wf(valid@, buf@),
                forall|k: int|
                    0 <= k < groups.deep_view().len() ==> group_wf(
                        #[trigger] groups.deep_view()[k],
                    ),
            decreases ts.len() - i,
        {
            let ghost old_groups = groups.deep_view();
            let ghost old_buf = buf@;
            let t = tokens_to_group[i];
            if !Self::token_allowed_exec(&valid, t) {
                return Err(CompileError::Grammar(t));
            }
            if t == Token::Endline {
                if buf.len() > 0 {
                    groups.push(buf);
                    buf = Vec::new();
                    proof {
                        assert(group_wf(old_buf));
                        assert(groups.deep_view() =~~= flush_group(old_groups, old_buf));
                    }
                } else {
                    proof {
                        assert(old_buf =~= Seq::<Token>::empty());
                    }
                }
                valid = Token::Endline.next_valid(true);
                proof {
                    assert(buf@ =~= Seq::<Token>::empty());
                }
            } else {
                buf.push(t);
                valid = t.next_valid(false);
            }
            i += 1;
        }
        Ok(groups)
    }

    /// Validate the token sequence and build the command sequence: one
    /// command per line group, in source order, with every address operand
    /// checked against `[0, 99]`.
    pub fn create_cmd_structure(tokens_to_compile: &Vec<Token>) -> (r: Result<
        Vec<Command>,
        CompileError,
    >)
        requires
            forall|j: int|
                0 <= j < tokens_to_compile@.len() ==> tokens_to_compile@[j]
                    != Token::IntLiteralNoData,
        ensures
            ({
                let m = cmd_structure_spec(tokens_to_compile@);
                match r {
                    Ok(cmds) => m == Ok::<Seq<Command>, ErrorModel>(cmds@) && forall|i: int|
                        0 <= i < cmds@.len() ==> #[trigger] cmds@[i].wf(),
                    Err(e) => m == Err::<Seq<Command>, ErrorModel>(e@),
                }
            }),
    {
        let token_groups: Vec<Vec<Token>> = match Self::create_token_groups_validate(
            tokens_to_compile,
        ) {
            Ok(groups) => groups,
            Err(e) => {
                return Err(e);
            },
        };
        let ghost gs = token_groups.deep_view();
        let mut command_buffer: Vec<Command> = Vec::new();
        let mut i: usize = 0;
        proof {
            assert(command_buffer@ =~= Seq::<Command>::empty());
        }
        while i < token_groups.len()
            invariant
                i <= gs.len(),
                gs == token_groups.deep_view(),
                cmd_structure_spec(tokens_to_compile@) == build_spec(gs),
                forall|k: int| 0 <= k < gs.len() ==> group_wf(#[trigger] gs[k]),
                build_loop(gs, i as int, command_buffer@) == build_spec(gs),
                forall|k: int|
                    0 <= k < command_buffer@.len() ==> #[trigger] command_buffer@[k].wf(),
            decreases gs.len() - i,
        {
            let group = &token_groups[i];
            proof {
                assert(gs[i as int] == group@);
                assert(group_wf(group@));
            }
            let first_token = group[0];
            match first_token {
                Token::Load
                | Token::Store
                | Token::Add
                | Token::Subtract
                | Token::BranchAll
                | Token::BranchZero
                | Token::BranchZeroPos => {
                    match group[1] {
                        Token::IntLiteral(value) => {
                            if 0 > value || value > 99 {
                                proof {
                                    assert(group@[1] == Token::IntLiteral(value));
                                    assert(build_group_spec(gs[i as int])
                                        == Err::<Option<Command>, ErrorModel>(
                                        ErrorModel::OperandRange(value),
                                    ));
                                    assert(build_loop(gs, i as int, command_buffer@)
                                        == Err::<Seq<Command>, ErrorModel>(
                                        ErrorModel::OperandRange(value),
                                    ));
                                }
                                return Err(CompileError::OperandRange(value));
                            }
                            command_buffer.push(
                                Command::from_token_location_literal(first_token, value as u8),
                            );
                        },
                        _ => {
                            proof {
                                assert(false);
                            }
                        },
                    }
                },
                Token::Output => command_buffer.push(Command::OUT),
                Token::Input => command_buffer.push(Command::INP),
                Token::End => command_buffer.push(Command::HLT),
                Token::DataStore => {
                    if group.len() == 2 {
                        match group[1] {
                            Token::IntLiteral(value) => command_buffer.push(Command::DAT(value)),
                            _ => {
                                proof {
                                    assert(false);
                                }
                            },
                        }
                    }
                },
                _ => {
                    proof {
                        assert(false);
                    }
                },
            }
            i += 1;
        }
        Ok(command_buffer)
    }

    /// Lay the commands out in a fresh 100-cell memory image, one cell per
    /// command starting at address zero, leaving unused trailing cells
    /// zero.  A program of more than 100 commands is a capacity error, and
    /// no partial image is returned.
    pub fn create_memory_array(command_vec: &Vec<Command>) -> (r: Result<Vec<i16>, CompileError>)
        requires
            forall|i: int| 0 <= i < command_vec@.len() ==> #[trigger] command_vec@[i].wf(),
        ensures
            ({
                if command_vec@.len() > MEMORY_SIZE {
                    r matches Err(e) && e@ == ErrorModel::Capacity(command_vec@.len() as int)
                } else {
                    r matches Ok(memory) && memory@ == image_spec(command_vec@)
                        && memory@.len() == MEMORY_SIZE
                }
            }),
    {
        if command_vec.len() > MEMORY_SIZE {
            return Err(CompileError::Capacity(command_vec.len()));
        }
        let mut memory: Vec<i16> = Vec::new();
        let mut i: usize = 0;
        while i < MEMORY_SIZE
            invariant
                i <= MEMORY_SIZE,
                memory@.len() == i,
                forall|k: int| 0 <= k < i ==> memory@[k] == 0i16,
            decreases MEMORY_SIZE - i,
        {
            memory.push(0);
            i += 1;
        }
        let mut program_counter: usize = 0;
        while program_counter < command_vec.len()
            invariant
                command_vec@.len() <= MEMORY_SIZE,
                program_counter <= command_vec@.len(),
                memory@.len() == MEMORY_SIZE,
                forall|i: int| 0 <= i < command_vec@.len() ==> #[trigger] command_vec@[i].wf(),
                forall|k: int|
                    0 <= k < program_counter ==> memory@[k] == #[trigger] command_vec@[k]
                        .encode_spec(),
                forall|k: int| program_counter <= k < MEMORY_SIZE ==> memory@[k] == 0i16,
            decreases command_vec@.len() - program_counter,
        {
            let data = command_vec[program_counter].get_byte_data();
            memory[program_counter] = data;
            program_counter += 1;
        }
        proof {
            assert(memory@ =~= image_spec(command_vec@));
        }
        Ok(memory)
    }

    /// Compile raw source text into the machine's 100-cell memory image, or
    /// fail with the first error encountered scanning the source in order.
    pub fn compile(file_source: String) -> (r: Result<Vec<i16>, CompileError>)
        ensures
            ({
                let m = compile_spec(file_source@);
                match r {
                    Ok(memory) => m == Ok::<Seq<i16>, ErrorModel>(memory@) && memory@.len()
                        == MEMORY_SIZE,
                    Err(e) => m == Err::<Seq<i16>, ErrorModel>(e@),
                }
            }),
    {
        let prepared = Self::prepare_source(file_source.as_str());
        let word_vector = Self::acquire_words(&prepared);
        let tokens_queue = match Self::tokenise(&word_vector) {
            Ok(tokens) => tokens,
            Err(e) => {
                return Err(e);
            },
        };
        let command_vector = match Self::create_cmd_structure(&tokens_queue) {
            Ok(commands) => commands,
            Err(e) => {
                return Err(e);
            },
        };
        Self::create_memory_array(&command_vector)
    }
}

} // verus!
