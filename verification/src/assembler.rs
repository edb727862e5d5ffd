//! The assembler: from source text to statements, from statements to the
//! words of a program image.
//!
//! A source line holds at most one statement. A semicolon starts a comment
//! that runs to the end of the line, white space separates tokens, and
//! letter case does not matter outside the text of a data directive.

use vstd::prelude::*;
use vstd::slice::slice_subrange;
use crate::decode::{mnemonic_name, reg_name};
use crate::machine::image_word;
use crate::microcodes::{dest_of, opcode_of, source_of, INSTRUCTION, REG};
use crate::text::{
    decimal_u16, find_byte, is_digit, is_spelled, lemma_next_byte, lowered, next_byte, parse_u16,
    same_bytes, split_whitespace, spells, texts_view, to_lowercase, to_vec, tokens,
};

verus! {

/// One statement of a program.
#[derive(Debug)]
pub enum Statement {
    /// An operation with its register operands, in source order.
    Command(INSTRUCTION, Vec<REG>),
    /// A constant load: the register and the text of the constant, which
    /// is a decimal number or the name of a label.
    Ldcnst(REG, Vec<u8>),
    /// The definition of a label, by name.
    Label(Vec<u8>),
    /// A data directive: the bytes to place in the image.
    Data(Vec<u8>),
}

/// A statement as plain values.
pub enum StatementModel {
    Command(INSTRUCTION, Seq<REG>),
    Ldcnst(REG, Seq<u8>),
    Label(Seq<u8>),
    Data(Seq<u8>),
}

impl View for Statement {
    type V = StatementModel;

    open spec fn view(&self) -> StatementModel {
        match self {
            Statement::Command(op, args) => StatementModel::Command(*op, args@),
            Statement::Ldcnst(reg, constant) => StatementModel::Ldcnst(*reg, constant@),
            Statement::Label(name) => StatementModel::Label(name@),
            Statement::Data(bytes) => StatementModel::Data(bytes@),
        }
    }
}

/// A list of statements as plain values.
pub open spec fn statements_view(list: Seq<Statement>) -> Seq<StatementModel> {
    list.map_values(|statement: Statement| statement@)
}

/// What is wrong with a program.
#[derive(Debug, Clone, Copy, PartialEq, Eq, Structural)]
pub enum AssemblyErrorKind {
    /// The first token of a line is not a label, not `data` and not a
    /// mnemonic.
    WrongMnemonic,
    /// An operand that should name a register names none.
    WrongRegister,
    /// A data directive without a quoted text of letters, digits, spaces
    /// and exclamation marks.
    WrongDataFormat,
    /// A constant load without its register or without its constant.
    MissingOperand,
    /// A constant that is neither a number nor a defined label.
    UnknownLabel,
    /// A constant that starts like a number and is not a decimal word.
    MalformedNumber,
    /// A label stands behind more words than an address can count.
    ProgramTooLarge,
}

/// An error and the place it was found at.
#[derive(Debug, Clone, Copy, PartialEq, Eq, Structural)]
pub struct AssemblyError {
    /// What is wrong.
    pub kind: AssemblyErrorKind,
    /// Where: the number of the source line for an error found in the
    /// text, the number of the statement for one found later, both
    /// counted from zero.
    pub index: usize,
}

/// The operation with the lowest opcode at or above `code` whose mnemonic
/// the token spells.
pub open spec fn mnemonic_from(token: Seq<u8>, code: u32) -> Option<INSTRUCTION>
    decreases 64 - code,
{
    if code >= 64 {
        None
    } else {
        match INSTRUCTION::spec_from_u32(code) {
            Some(op) => if spells(token, mnemonic_name(op)@) {
                Some(op)
            } else {
                mnemonic_from(token, (code + 1) as u32)
            },
            None => mnemonic_from(token, (code + 1) as u32),
        }
    }
}

/// The operation whose mnemonic the token spells, if there is one.
pub open spec fn mnemonic_of(token: Seq<u8>) -> Option<INSTRUCTION> {
    mnemonic_from(token, 0)
}

/// The register with the lowest code at or above `code` whose name the
/// token spells.
pub open spec fn register_from(token: Seq<u8>, code: u32) -> Option<REG>
    decreases 8 - code,
{
    if code >= 8 {
        None
    } else {
        match REG::spec_from_u32(code) {
            Some(reg) => if spells(token, reg_name(reg)@) {
                Some(reg)
            } else {
                register_from(token, (code + 1) as u32)
            },
            None => register_from(token, (code + 1) as u32),
        }
    }
}

/// The register whose name the token spells, if there is one.
pub open spec fn register_of(token: Seq<u8>) -> Option<REG> {
    register_from(token, 0)
}

/// Looks a mnemonic up.
pub fn find_mnemonic(token: &[u8]) -> (found: Option<INSTRUCTION>)
    ensures
        found == mnemonic_of(token@),
{
    let mut code: u32 = 0;
    while code < 64
        invariant
            code <= 64,
            mnemonic_of(token@) == mnemonic_from(token@, code),
        decreases 64 - code,
    {
        match INSTRUCTION::from_u32(code) {
            Some(op) => {
                if is_spelled(token, mnemonic_name(op)) {
                    return Some(op);
                }
            },
            None => {},
        }
        code += 1;
    }
    None
}

/// Looks a register name up.
pub fn find_register(token: &[u8]) -> (found: Option<REG>)
    ensures
        found == register_of(token@),
{
    let mut code: u32 = 0;
    while code < 8
        invariant
            code <= 8,
            register_of(token@) == register_from(token@, code),
        decreases 8 - code,
    {
        match REG::from_u32(code) {
            Some(reg) => {
                if is_spelled(token, reg_name(reg)) {
                    return Some(reg);
                }
            },
            None => {},
        }
        code += 1;
    }
    None
}

/// The registers that the first `n` tokens name, in lower case or upper,
/// if every one of them names a register.
pub open spec fn registers_upto(tokens: Seq<Seq<u8>>, n: nat) -> Option<Seq<REG>>
    decreases n,
{
    if n == 0 {
        Some(seq![])
    } else {
        match (
            registers_upto(tokens, (n - 1) as nat),
            register_of(lowered(tokens[n - 1])),
        ) {
            (Some(regs), Some(reg)) => Some(regs.push(reg)),
            _ => None,
        }
    }
}

/// The registers that the tokens name, if every one of them names a
/// register.
pub open spec fn registers_of(tokens: Seq<Seq<u8>>) -> Option<Seq<REG>> {
    registers_upto(tokens, tokens.len())
}

/// The tokens with one space between each two.
pub open spec fn joined(tokens: Seq<Seq<u8>>) -> Seq<u8>
    decreases tokens.len(),
{
    if tokens.len() == 0 {
        seq![]
    } else if tokens.len() == 1 {
        tokens[0]
    } else {
        joined(tokens.drop_last()) + seq![32u8] + tokens.last()
    }
}

/// Whether a byte may stand in the text of a data directive: a letter, a
/// digit, a space or an exclamation mark.
pub open spec fn is_data_char(c: u8) -> bool {
    (97 <= c <= 122) || (65 <= c <= 90) || (48 <= c <= 57) || c == 33 || c == 32
}

/// The first place at or after `from` that holds a byte which may not
/// stand in the text of a data directive, or the length of the text.
pub open spec fn run_end(s: Seq<u8>, from: int) -> int
    decreases s.len() - from,
{
    if from < 0 || from >= s.len() {
        s.len() as int
    } else if !is_data_char(s[from]) {
        from
    } else {
        run_end(s, from + 1)
    }
}

/// Whether a quoted text stands in `s` with its opening quote at `p` and
/// its closing quote at `q`: at least one byte lies between the quotes,
/// and every byte between them may stand in a data directive.
pub open spec fn quoted(s: Seq<u8>, p: int, q: int) -> bool {
    &&& 0 <= p
    &&& p + 1 < q < s.len()
    &&& s[p] == 34
    &&& s[q] == 34
    &&& forall|k: int| p < k < q ==> is_data_char(s[k])
}

/// The first quoted text whose opening quote stands at or after `p`,
/// without its quotes.
pub open spec fn payload_from(s: Seq<u8>, p: int) -> Option<Seq<u8>>
    decreases s.len() - p,
{
    if p < 0 || p >= s.len() {
        None
    } else {
        let q = run_end(s, p + 1);
        if s[p] == 34 && p + 1 < q < s.len() && s[q] == 34 {
            Some(s.subrange(p + 1, q))
        } else {
            payload_from(s, p + 1)
        }
    }
}

/// The text of a data directive: the first quoted text in it, without its
/// quotes.
pub open spec fn data_payload(s: Seq<u8>) -> Option<Seq<u8>> {
    payload_from(s, 0)
}

/// `run_end` finds the first such place and nothing before it.
pub proof fn lemma_run_end(s: Seq<u8>, from: int)
    requires
        0 <= from <= s.len(),
    ensures
        from <= run_end(s, from) <= s.len(),
        run_end(s, from) < s.len() ==> !is_data_char(s[run_end(s, from)]),
        forall|k: int| from <= k < run_end(s, from) ==> is_data_char(s[k]),
    decreases s.len() - from,
{
    if from < s.len() && is_data_char(s[from]) {
        lemma_run_end(s, from + 1);
    }
}

/// A quoted text that opens at `p` closes where the run of admissible
/// bytes behind `p` ends.
pub proof fn lemma_quoted_closes_at_run_end(s: Seq<u8>, p: int, q: int)
    requires
        quoted(s, p, q),
    ensures
        q == run_end(s, p + 1),
{
    lemma_run_end(s, p + 1);
    let e = run_end(s, p + 1);
    if e < q {
        assert(is_data_char(s[e]));
    } else if e > q {
        assert(is_data_char(s[q]));
    }
}

/// The text of a data directive is the leftmost quoted text: where one is
/// found it is quoted and none opens before it, and where none is found
/// there is no quoted text at all.
pub proof fn lemma_payload_is_leftmost(s: Seq<u8>, from: int)
    requires
        0 <= from <= s.len(),
    ensures
        match payload_from(s, from) {
            Some(text) => exists|p: int, q: int|
                from <= p && #[trigger] quoted(s, p, q) && text == s.subrange(p + 1, q) && forall|
                    a: int,
                    b: int,
                |
                    from <= a < p ==> !#[trigger] quoted(s, a, b),
            None => forall|a: int, b: int| from <= a ==> !#[trigger] quoted(s, a, b),
        },
    decreases s.len() - from,
{
    if from < s.len() {
        let q = run_end(s, from + 1);
        lemma_run_end(s, from + 1);
        if s[from] == 34 && from + 1 < q < s.len() && s[q] == 34 {
            assert(quoted(s, from, q));
        } else {
            lemma_payload_is_leftmost(s, from + 1);
            assert forall|b: int| !#[trigger] quoted(s, from, b) by {
                if quoted(s, from, b) {
                    lemma_quoted_closes_at_run_end(s, from, b);
                }
            }
            match payload_from(s, from) {
                Some(text) => {
                    let (p, q2) = choose|p: int, q2: int|
                        from + 1 <= p && #[trigger] quoted(s, p, q2) && text == s.subrange(
                            p + 1,
                            q2,
                        ) && forall|a: int, b: int| from + 1 <= a < p ==> !#[trigger] quoted(s, a, b);
                    assert(from <= p && quoted(s, p, q2) && text == s.subrange(p + 1, q2));
                    assert forall|a: int, b: int| from <= a < p implies !#[trigger] quoted(
                        s,
                        a,
                        b,
                    ) by {
                        if a == from {
                            assert(!quoted(s, from, b));
                        }
                    }
                },
                None => {
                    assert forall|a: int, b: int| from <= a implies !#[trigger] quoted(s, a, b) by {
                        if a == from {
                            assert(!quoted(s, from, b));
                        }
                    }
                },
            }
        }
    }
}

/// A text as a plain sequence, where there is one.
pub open spec fn bytes_view(text: Option<Vec<u8>>) -> Option<Seq<u8>> {
    match text {
        Some(t) => Some(t@),
        None => None,
    }
}

/// Whether a byte may stand in the text of a data directive.
fn data_char(c: u8) -> (admissible: bool)
    ensures
        admissible == is_data_char(c),
{
    (97 <= c && c <= 122) || (65 <= c && c <= 90) || (48 <= c && c <= 57) || c == 33 || c == 32
}

/// Finds the text of a data directive.
pub fn find_payload(s: &[u8]) -> (text: Option<Vec<u8>>)
    ensures
        bytes_view(text) == data_payload(s@),
{
    let mut p: usize = 0;
    while p < s.len()
        invariant
            p <= s@.len(),
            data_payload(s@) == payload_from(s@, p as int),
        decreases s@.len() - p,
    {
        if s[p] == 34 {
            let mut q: usize = p + 1;
            while q < s.len() && data_char(s[q])
                invariant
                    p + 1 <= q <= s@.len(),
                    run_end(s@, p + 1) == run_end(s@, q as int),
                decreases s@.len() - q,
            {
                q += 1;
            }
            if p + 1 < q && q < s.len() && s[q] == 34 {
                return Some(to_vec(slice_subrange(s, p + 1, q)));
            }
        }
        p += 1;
    }
    None
}

/// Puts one space between each two tokens.
pub fn join(tokens: &[Vec<u8>]) -> (line: Vec<u8>)
    ensures
        line@ == joined(texts_view(tokens@)),
{
    let mut ret: Vec<u8> = Vec::new();
    let mut i: usize = 0;
    let ghost all = texts_view(tokens@);
    assert(all.subrange(0, 0) =~= seq![]);
    while i < tokens.len()
        invariant
            i <= tokens@.len(),
            all == texts_view(tokens@),
            ret@ == joined(all.subrange(0, i as int)),
        decreases tokens@.len() - i,
    {
        let ghost before = ret@;
        if i > 0 {
            ret.push(32);
        }
        let token = &tokens[i];
        let mut k: usize = 0;
        let ghost spaced = ret@;
        while k < token.len()
            invariant
                k <= token@.len(),
                ret@ == spaced + token@.subrange(0, k as int),
            decreases token@.len() - k,
        {
            ret.push(token[k]);
            assert(ret@ =~= spaced + token@.subrange(0, k + 1));
            k += 1;
        }
        proof {
            assert(token@.subrange(0, token@.len() as int) =~= token@);
            let upto = all.subrange(0, i + 1);
            assert(upto.drop_last() =~= all.subrange(0, i as int));
            assert(upto.last() == token@);
            if i == 0 {
                assert(ret@ =~= token@);
            } else {
                assert(ret@ =~= before + seq![32u8] + token@);
            }
        }
        i += 1;
    }
    assert(all.subrange(0, tokens@.len() as int) =~= all);
    ret
}

/// The statement of a data directive, given the tokens behind the word
/// `data`: they are joined by single spaces, and the first quoted text in
/// that line is the data.
pub open spec fn data_statement(tokens: Seq<Seq<u8>>) -> Result<StatementModel, AssemblyErrorKind> {
    match data_payload(joined(tokens)) {
        Some(text) => Ok(StatementModel::Data(text)),
        None => Err(AssemblyErrorKind::WrongDataFormat),
    }
}

/// A statement as plain values, or the error in its place.
pub open spec fn statement_result(parsed: Result<Statement, AssemblyErrorKind>) -> Result<
    StatementModel,
    AssemblyErrorKind,
> {
    match parsed {
        Ok(statement) => Ok(statement@),
        Err(kind) => Err(kind),
    }
}

/// Reads a data directive from the tokens behind the word `data`.
pub fn parse_data(tokens: &[Vec<u8>]) -> (parsed: Result<Statement, AssemblyErrorKind>)
    ensures
        statement_result(parsed) == data_statement(texts_view(tokens@)),
{
    let line = join(tokens);
    match find_payload(line.as_slice()) {
        Some(text) => Ok(Statement::Data(text)),
        None => Err(AssemblyErrorKind::WrongDataFormat),
    }
}

/// A line without its comment: what stands before the first semicolon.
pub open spec fn strip_comment(line: Seq<u8>) -> Seq<u8> {
    line.subrange(0, next_byte(line, 0, 59))
}

/// The statement of a constant load, given the tokens behind its
/// mnemonic: the register, then the constant. Tokens behind the constant
/// are not looked at.
pub open spec fn ldcnst_statement(operands: Seq<Seq<u8>>) -> Result<
    StatementModel,
    AssemblyErrorKind,
> {
    if operands.len() < 1 {
        Err(AssemblyErrorKind::MissingOperand)
    } else {
        match register_of(lowered(operands[0])) {
            None => Err(AssemblyErrorKind::WrongRegister),
            Some(reg) => if operands.len() < 2 {
                Err(AssemblyErrorKind::MissingOperand)
            } else {
                Ok(StatementModel::Ldcnst(reg, lowered(operands[1])))
            },
        }
    }
}

/// Whether a token, in lower case, defines a label: it ends in a colon.
pub open spec fn is_label(token: Seq<u8>) -> bool {
    token.len() > 0 && token.last() == 58
}

/// The statement that begins with the token `head`, in lower case, and has
/// `operands` behind it.
///
/// - `data` makes a data directive of the operands.
/// - Any other token must be a mnemonic. `ldcnst` takes a register and a
///   constant; every other operation takes registers, one per token.
pub open spec fn plain_statement(head: Seq<u8>, operands: Seq<Seq<u8>>) -> Result<
    StatementModel,
    AssemblyErrorKind,
> {
    if spells(head, "data"@) {
        data_statement(operands)
    } else {
        match mnemonic_of(head) {
            None => Err(AssemblyErrorKind::WrongMnemonic),
            Some(op) => if op == INSTRUCTION::LDCNST {
                ldcnst_statement(operands)
            } else {
                match registers_of(operands) {
                    None => Err(AssemblyErrorKind::WrongRegister),
                    Some(regs) => Ok(StatementModel::Command(op, regs)),
                }
            },
        }
    }
}

/// The statements that the tokens of a line hold from token `from` on.
///
/// - No token holds no statement.
/// - A token that ends in a colon defines the label named by what stands
///   before the colon, in lower case; what follows it on the line is read
///   in the same way.
/// - Any other token begins the one statement that takes the rest of the
///   line.
pub open spec fn tokens_statements(all: Seq<Seq<u8>>, from: nat) -> Result<
    Seq<StatementModel>,
    AssemblyErrorKind,
>
    decreases all.len() - from,
{
    if from >= all.len() {
        Ok(seq![])
    } else {
        let head = lowered(all[from as int]);
        if is_label(head) {
            match tokens_statements(all, from + 1) {
                Ok(rest) => Ok(seq![StatementModel::Label(head.drop_last())] + rest),
                Err(kind) => Err(kind),
            }
        } else {
            match plain_statement(head, all.subrange(from as int + 1, all.len() as int)) {
                Ok(statement) => Ok(seq![statement]),
                Err(kind) => Err(kind),
            }
        }
    }
}

/// The statements that a source line holds: those of its tokens, the
/// comment left out.
///
/// Mnemonics, register names and label names are read without regard to
/// letter case; the text of a data directive is taken as it stands.
pub open spec fn line_statements(line: Seq<u8>) -> Result<Seq<StatementModel>, AssemblyErrorKind> {
    tokens_statements(tokens(strip_comment(line)), 0)
}

/// What reading a line gave, as plain values.
pub open spec fn line_result(parsed: Result<Vec<Statement>, AssemblyErrorKind>) -> Result<
    Seq<StatementModel>,
    AssemblyErrorKind,
> {
    match parsed {
        Ok(list) => Ok(statements_view(list@)),
        Err(kind) => Err(kind),
    }
}

/// What follows the labels `labels` at the head of a line.
pub open spec fn after_labels(
    labels: Seq<StatementModel>,
    rest: Result<Seq<StatementModel>, AssemblyErrorKind>,
) -> Result<Seq<StatementModel>, AssemblyErrorKind> {
    match rest {
        Ok(more) => Ok(labels + more),
        Err(kind) => Err(kind),
    }
}

/// Reads the register operands of an operation.
fn parse_registers(operands: &[Vec<u8>]) -> (regs: Option<Vec<REG>>)
    ensures
        match regs {
            Some(list) => registers_of(texts_view(operands@)) == Some(list@),
            None => registers_of(texts_view(operands@)) is None,
        },
{
    let mut regs: Vec<REG> = Vec::new();
    let mut i: usize = 0;
    let ghost all = texts_view(operands@);
    while i < operands.len()
        invariant
            i <= operands@.len(),
            all == texts_view(operands@),
            registers_upto(all, i as nat) == Some(regs@),
        decreases operands@.len() - i,
    {
        let name = to_lowercase(operands[i].as_slice());
        match find_register(name.as_slice()) {
            Some(reg) => {
                regs.push(reg);
            },
            None => {
                proof {
                    lemma_registers_fail(all, (i + 1) as nat, all.len());
                }
                return None;
            },
        }
        i += 1;
    }
    Some(regs)
}

/// Once a token names no register, no longer list of tokens does.
proof fn lemma_registers_fail(tokens: Seq<Seq<u8>>, n: nat, m: nat)
    requires
        n <= m,
        registers_upto(tokens, n) is None,
    ensures
        registers_upto(tokens, m) is None,
    decreases m - n,
{
    if n < m {
        lemma_registers_fail(tokens, n, (m - 1) as nat);
    }
}

/// Reads the statement that begins with `head` and has `operands`
/// behind it.
fn parse_plain(head: &[u8], operands: &[Vec<u8>]) -> (parsed: Result<Statement, AssemblyErrorKind>)
    ensures
        statement_result(parsed) == plain_statement(head@, texts_view(operands@)),
{
    if is_spelled(head, "data") {
        return parse_data(operands);
    }
    match find_mnemonic(head) {
        None => Err(AssemblyErrorKind::WrongMnemonic),
        Some(op) => {
            if op == INSTRUCTION::LDCNST {
                if operands.len() < 1 {
                    return Err(AssemblyErrorKind::MissingOperand);
                }
                let name = to_lowercase(operands[0].as_slice());
                match find_register(name.as_slice()) {
                    None => Err(AssemblyErrorKind::WrongRegister),
                    Some(reg) => {
                        if operands.len() < 2 {
                            Err(AssemblyErrorKind::MissingOperand)
                        } else {
                            Ok(Statement::Ldcnst(reg, to_lowercase(operands[1].as_slice())))
                        }
                    },
                }
            } else {
                match parse_registers(operands) {
                    None => Err(AssemblyErrorKind::WrongRegister),
                    Some(regs) => Ok(Statement::Command(op, regs)),
                }
            }
        },
    }
}

/// Reads one source line.
pub fn parse_line(line: &[u8]) -> (parsed: Result<Vec<Statement>, AssemblyErrorKind>)
    ensures
        line_result(parsed) == line_statements(line@),
{
    proof {
        lemma_next_byte(line@, 0, 59);
    }
    let end = find_byte(line, 0, 59);
    let tokens = split_whitespace(slice_subrange(line, 0, end));
    let ghost all = texts_view(tokens@);
    let mut ret: Vec<Statement> = Vec::new();
    let mut i: usize = 0;
    assert(statements_view(ret@) =~= seq![]);
    assert(after_labels(seq![], tokens_statements(all, 0)) == tokens_statements(all, 0)) by {
        match tokens_statements(all, 0) {
            Ok(more) => {
                assert(seq![] + more =~= more);
            },
            Err(_) => {},
        }
    }
    while i < tokens.len()
        invariant
            i <= tokens@.len(),
            all == texts_view(tokens@),
            line_statements(line@) == after_labels(
                statements_view(ret@),
                tokens_statements(all, i as nat),
            ),
        decreases tokens@.len() - i,
    {
        let mut head = to_lowercase(tokens[i].as_slice());
        if head.len() > 0 && head[head.len() - 1] == 58 {
            let ghost before = statements_view(ret@);
            let ghost rest = tokens_statements(all, (i + 1) as nat);
            head.pop();
            let label = Statement::Label(head);
            ret.push(label);
            assert(statements_view(ret@) =~= before + seq![label@]);
            proof {
                match rest {
                    Ok(more) => {
                        assert((before + seq![label@]) + more =~= before + (seq![label@] + more));
                    },
                    Err(_) => {},
                }
            }
            i += 1;
        } else {
            let operands = slice_subrange(tokens.as_slice(), i + 1, tokens.len());
            assert(texts_view(operands@) =~= all.subrange(i + 1, all.len() as int));
            let ghost before = statements_view(ret@);
            return match parse_plain(head.as_slice(), operands) {
                Ok(statement) => {
                    ret.push(statement);
                    assert(statements_view(ret@) =~= before + seq![statement@]);
                    Ok(ret)
                },
                Err(kind) => Err(kind),
            };
        }
    }
    assert(statements_view(ret@) + seq![] =~= statements_view(ret@));
    Ok(ret)
}

/// The statements of the lines of a text from `from` on, or the first
/// error among them with the number of its line, counted from the line
/// that starts at `from`. Lines end at line feeds.
pub open spec fn program_from(text: Seq<u8>, from: int) -> Result<
    Seq<StatementModel>,
    (AssemblyErrorKind, nat),
>
    decreases text.len() + 1 - from,
{
    if from < 0 || from >= text.len() {
        Ok(seq![])
    } else {
        let end = next_byte(text, from, 10);
        proof {
            lemma_next_byte(text, from, 10);
        }
        match line_statements(text.subrange(from, end)) {
            Err(kind) => Err((kind, 0nat)),
            Ok(statements) => match program_from(text, end + 1) {
                Ok(rest) => Ok(statements + rest),
                Err((kind, line)) => Err((kind, line + 1)),
            },
        }
    }
}

/// The statements of a source text, in order, or its first error with the
/// number of the line it stands in.
pub open spec fn program(text: Seq<u8>) -> Result<Seq<StatementModel>, (AssemblyErrorKind, nat)> {
    program_from(text, 0)
}

/// What follows `lines` lines that gave `statements`.
pub open spec fn after_lines(
    statements: Seq<StatementModel>,
    lines: nat,
    rest: Result<Seq<StatementModel>, (AssemblyErrorKind, nat)>,
) -> Result<Seq<StatementModel>, (AssemblyErrorKind, nat)> {
    match rest {
        Ok(more) => Ok(statements + more),
        Err((kind, line)) => Err((kind, lines + line)),
    }
}

/// What reading a text gave, as plain values.
pub open spec fn program_result(parsed: Result<Vec<Statement>, AssemblyError>) -> Result<
    Seq<StatementModel>,
    (AssemblyErrorKind, nat),
> {
    match parsed {
        Ok(list) => Ok(statements_view(list@)),
        Err(error) => Err((error.kind, error.index as nat)),
    }
}

/// Reads a source text: the statements of its lines, in order, or the
/// first error.
pub fn parse_text(text: &[u8]) -> (parsed: Result<Vec<Statement>, AssemblyError>)
    ensures
        program_result(parsed) == program(text@),
{
    let mut ret: Vec<Statement> = Vec::new();
    let mut from: usize = 0;
    let mut line: usize = 0;
    assert(statements_view(ret@) =~= seq![]);
    assert(after_lines(seq![], 0, program(text@)) == program(text@)) by {
        match program(text@) {
            Ok(more) => {
                assert(seq![] + more =~= more);
            },
            Err(_) => {},
        }
    }
    while from < text.len()
        invariant
            from <= text@.len(),
            line <= from,
            program(text@) == after_lines(
                statements_view(ret@),
                line as nat,
                program_from(text@, from as int),
            ),
        decreases text@.len() - from,
    {
        proof {
            lemma_next_byte(text@, from as int, 10);
        }
        let end = find_byte(text, from, 10);
        let ghost before = statements_view(ret@);
        let ghost rest = program_from(text@, end + 1);
        match parse_line(slice_subrange(text, from, end)) {
            Err(kind) => {
                return Err(AssemblyError { kind, index: line });
            },
            Ok(statements) => {
                let mut statements = statements;
                let ghost found = statements_view(statements@);
                ret.append(&mut statements);
                assert(statements_view(ret@) =~= before + found);
                proof {
                    match rest {
                        Ok(more) => {
                            assert((before + found) + more =~= before + (found + more));
                        },
                        Err(_) => {},
                    }
                }
            },
        }
        if end == text.len() {
            assert(statements_view(ret@) + seq![] =~= statements_view(ret@));
            return Ok(ret);
        }
        from = end + 1;
        line += 1;
    }
    assert(statements_view(ret@) + seq![] =~= statements_view(ret@));
    Ok(ret)
}

/// The label table that a list of definitions makes: a later definition
/// of a name replaces an earlier one.
pub open spec fn entries_map(entries: Seq<(Vec<u8>, u16)>) -> Map<Seq<u8>, u16>
    decreases entries.len(),
{
    if entries.len() == 0 {
        Map::empty()
    } else {
        entries_map(entries.drop_last()).insert(entries.last().0@, entries.last().1)
    }
}

/// The labels of a program: from name to word address.
#[derive(Debug)]
pub struct Labels {
    entries: Vec<(Vec<u8>, u16)>,
}

impl View for Labels {
    type V = Map<Seq<u8>, u16>;

    closed spec fn view(&self) -> Map<Seq<u8>, u16> {
        entries_map(self.entries@)
    }
}

impl Labels {
    /// A table without labels.
    pub fn new() -> (labels: Labels)
        ensures
            labels@ == Map::<Seq<u8>, u16>::empty(),
    {
        Labels { entries: Vec::new() }
    }

    /// Defines a label. A definition replaces an earlier one of the same
    /// name.
    pub fn insert(&mut self, name: Vec<u8>, offset: u16)
        ensures
            final(self)@ == old(self)@.insert(name@, offset),
    {
        let ghost before = self.entries@;
        self.entries.push((name, offset));
        assert(self.entries@.drop_last() =~= before);
    }

    /// The address of a label, if it is defined.
    pub fn get(&self, name: &[u8]) -> (offset: Option<u16>)
        ensures
            offset == if self@.contains_key(name@) {
                Some(self@[name@])
            } else {
                None
            },
    {
        let mut i: usize = self.entries.len();
        assert(self.entries@.subrange(0, i as int) =~= self.entries@);
        while i > 0
            invariant
                i <= self.entries@.len(),
                self@.contains_key(name@) == entries_map(
                    self.entries@.subrange(0, i as int),
                ).contains_key(name@),
                self@.contains_key(name@) ==> self@[name@] == entries_map(
                    self.entries@.subrange(0, i as int),
                )[name@],
            decreases i,
        {
            let ghost upto = self.entries@.subrange(0, i as int);
            assert(upto.drop_last() =~= self.entries@.subrange(0, i - 1));
            if same_bytes(self.entries[i - 1].0.as_slice(), name) {
                return Some(self.entries[i - 1].1);
            }
            i -= 1;
        }
        None
    }
}

/// The number of words that a statement takes in the image.
pub open spec fn statement_size(statement: StatementModel) -> nat {
    match statement {
        StatementModel::Command(_, _) => 1,
        StatementModel::Ldcnst(_, _) => 2,
        StatementModel::Label(_) => 0,
        StatementModel::Data(bytes) => bytes.len(),
    }
}

/// The word address at which statement `n` begins: the number of words
/// that the statements before it take.
pub open spec fn offset_before(statements: Seq<StatementModel>, n: nat) -> nat
    decreases n,
{
    if n == 0 {
        0
    } else {
        offset_before(statements, (n - 1) as nat) + statement_size(statements[n - 1])
    }
}

/// Whether statement `i` defines a label at an address that does not fit
/// in a word.
pub open spec fn label_out_of_reach(statements: Seq<StatementModel>, i: int) -> bool {
    &&& 0 <= i < statements.len()
    &&& statements[i] is Label
    &&& offset_before(statements, i as nat) > 0xffff
}

/// The table after the labels among the first `n` statements have been
/// added to `labels`, each with the address it stands at.
pub open spec fn labels_upto(
    statements: Seq<StatementModel>,
    n: nat,
    labels: Map<Seq<u8>, u16>,
) -> Map<Seq<u8>, u16>
    decreases n,
{
    if n == 0 {
        labels
    } else {
        let before = labels_upto(statements, (n - 1) as nat, labels);
        match statements[n - 1] {
            StatementModel::Label(name) => before.insert(
                name,
                offset_before(statements, (n - 1) as nat) as u16,
            ),
            _ => before,
        }
    }
}

/// Lays the program out and adds its labels to `labels`, each with the
/// word address it stands at.
///
/// It fails at the first label whose address does not fit in a word; the
/// labels before that one have been added then.
pub fn populate_labels(statements: &Vec<Statement>, labels: &mut Labels) -> (laid_out: Result<
    (),
    AssemblyError,
>)
    ensures
        match laid_out {
            Ok(()) => {
                &&& forall|i: int| !label_out_of_reach(statements_view(statements@), i)
                &&& final(labels)@ == labels_upto(
                    statements_view(statements@),
                    statements@.len(),
                    old(labels)@,
                )
            },
            Err(error) => {
                &&& error.kind == AssemblyErrorKind::ProgramTooLarge
                &&& label_out_of_reach(statements_view(statements@), error.index as int)
                &&& forall|i: int| i < error.index ==> !label_out_of_reach(statements_view(statements@), i)
                &&& final(labels)@ == labels_upto(
                    statements_view(statements@),
                    error.index as nat,
                    old(labels)@,
                )
            },
        },
{
    let ghost all = statements_view(statements@);
    // The address so far, or 0x1_0000 for every address beyond a word.
    let mut offset: usize = 0;
    let mut i: usize = 0;
    while i < statements.len()
        invariant
            i <= statements@.len(),
            all == statements_view(statements@),
            offset <= 0x1_0000,
            offset == if offset_before(all, i as nat) > 0xffff {
                0x1_0000
            } else {
                offset_before(all, i as nat)
            },
            forall|k: int| k < i ==> !label_out_of_reach(all, k),
            labels@ == labels_upto(all, i as nat, old(labels)@),
        decreases statements@.len() - i,
    {
        match &statements[i] {
            Statement::Command(_, _) => {
                if offset < 0x1_0000 {
                    offset += 1;
                }
            },
            Statement::Ldcnst(_, _) => {
                if offset < 0xffff {
                    offset += 2;
                } else {
                    offset = 0x1_0000;
                }
            },
            Statement::Label(name) => {
                if offset > 0xffff {
                    return Err(AssemblyError { kind: AssemblyErrorKind::ProgramTooLarge, index: i });
                }
                labels.insert(to_vec(name.as_slice()), offset as u16);
            },
            Statement::Data(bytes) => {
                if bytes.len() > 0x1_0000 - offset {
                    offset = 0x1_0000;
                } else {
                    offset += bytes.len();
                }
            },
        }
        i += 1;
    }
    Ok(())
}

/// The instruction word of an operation with its operands. Two operands
/// are source and destination. A single operand is the source of `push`
/// and the destination of any other operation. With no operand, or with
/// more than two, both fields are zero.
pub open spec fn command_word(op: INSTRUCTION, args: Seq<REG>) -> u16 {
    let source = if args.len() == 2 || (args.len() == 1 && op == INSTRUCTION::PUSH) {
        args[0].code()
    } else {
        0
    };
    let dest = if args.len() == 2 {
        args[1].code()
    } else if args.len() == 1 && op != INSTRUCTION::PUSH {
        args[0].code()
    } else {
        0
    };
    (op.code() * 1024 + source * 32 + dest) as u16
}

/// The instruction word `OP src dst` holds the opcode in bits 15 to 10,
/// the source in bits 9 to 5 and the destination in bits 4 to 0, and the
/// decoder reads back from it what the assembler put in.
pub proof fn lemma_two_operand_word(op: INSTRUCTION, src: REG, dst: REG)
    ensures
        command_word(op, seq![src, dst]) == op.spec_code() * 1024 + src.spec_code() * 32
            + dst.spec_code(),
        opcode_of(command_word(op, seq![src, dst]) as u32) == op.spec_code(),
        source_of(command_word(op, seq![src, dst]) as u32) == src.spec_code(),
        dest_of(command_word(op, seq![src, dst]) as u32) == dst.spec_code(),
{
}

/// Whether a constant starts like a number: with a digit or a sign.
pub open spec fn looks_numeric(constant: Seq<u8>) -> bool {
    constant.len() > 0 && (is_digit(constant[0]) || constant[0] == 43 || constant[0] == 45)
}

/// The word that a constant stands for: its value where it is a decimal
/// word, else the address of the label of that name.
pub open spec fn immediate(constant: Seq<u8>, labels: Map<Seq<u8>, u16>) -> Result<
    u16,
    AssemblyErrorKind,
> {
    match decimal_u16(constant) {
        Some(value) => Ok(value),
        None => if labels.contains_key(constant) {
            Ok(labels[constant])
        } else if looks_numeric(constant) {
            Err(AssemblyErrorKind::MalformedNumber)
        } else {
            Err(AssemblyErrorKind::UnknownLabel)
        },
    }
}

/// The words that a statement puts in the image.
pub open spec fn statement_words(statement: StatementModel, labels: Map<Seq<u8>, u16>) -> Result<
    Seq<u16>,
    AssemblyErrorKind,
> {
    match statement {
        StatementModel::Command(op, args) => Ok(seq![command_word(op, args)]),
        StatementModel::Ldcnst(reg, constant) => match immediate(constant, labels) {
            Ok(word) => Ok(seq![command_word(INSTRUCTION::LDCNST, seq![reg]), word]),
            Err(kind) => Err(kind),
        },
        StatementModel::Label(_) => Ok(seq![]),
        StatementModel::Data(bytes) => Ok(bytes.map_values(|b: u8| b as u16)),
    }
}

/// The words of the first `n` statements, or the first error among them
/// with the number of its statement.
pub open spec fn binary_upto(
    statements: Seq<StatementModel>,
    labels: Map<Seq<u8>, u16>,
    n: nat,
) -> Result<Seq<u16>, (AssemblyErrorKind, nat)>
    decreases n,
{
    if n == 0 {
        Ok(seq![])
    } else {
        match binary_upto(statements, labels, (n - 1) as nat) {
            Err(error) => Err(error),
            Ok(words) => match statement_words(statements[n - 1], labels) {
                Ok(more) => Ok(words + more),
                Err(kind) => Err((kind, (n - 1) as nat)),
            },
        }
    }
}

/// The words of a program, or its first error.
pub open spec fn binary(statements: Seq<StatementModel>, labels: Map<Seq<u8>, u16>) -> Result<
    Seq<u16>,
    (AssemblyErrorKind, nat),
> {
    binary_upto(statements, labels, statements.len())
}

/// What encoding gave, as plain values.
pub open spec fn binary_result(encoded: Result<Vec<u16>, AssemblyError>) -> Result<
    Seq<u16>,
    (AssemblyErrorKind, nat),
> {
    match encoded {
        Ok(words) => Ok(words@),
        Err(error) => Err((error.kind, error.index as nat)),
    }
}

/// The word that a constant stands for.
pub fn resolve(constant: &[u8], labels: &Labels) -> (word: Result<u16, AssemblyErrorKind>)
    ensures
        word == immediate(constant@, labels@),
{
    match parse_u16(constant) {
        Some(value) => Ok(value),
        None => match labels.get(constant) {
            Some(offset) => Ok(offset),
            None => {
                if constant.len() > 0 && ((48 <= constant[0] && constant[0] <= 57) || constant[0]
                    == 43 || constant[0] == 45) {
                    Err(AssemblyErrorKind::MalformedNumber)
                } else {
                    Err(AssemblyErrorKind::UnknownLabel)
                }
            },
        },
    }
}

/// The instruction word of an operation with its operands.
pub fn encode_command(op: INSTRUCTION, args: &[REG]) -> (word: u16)
    ensures
        word == command_word(op, args@),
{
    let mut opcode: u16 = 0;
    let code = op.code() as u16;
    assert((0u16 | (code << 10u8)) == code * 1024) by (bit_vector)
        requires
            code < 64,
    ;
    opcode |= code << crate::microcodes::OPCODE_SHIFT;
    assert(opcode & 0x3ff == 0) by (bit_vector)
        requires
            opcode == code * 1024,
            code < 64,
    ;
    if args.len() == 1 {
        let only = args[0].code() as u16;
        if op == INSTRUCTION::PUSH {
            assert((opcode | (only << 5u8)) == opcode + only * 32) by (bit_vector)
                requires
                    only < 8,
                    opcode & 0x3ff == 0,
            ;
            opcode |= only << crate::microcodes::SOURCE_SHIFT;
        } else {
            assert((opcode | only) == opcode + only) by (bit_vector)
                requires
                    only < 8,
                    opcode & 0x3ff == 0,
            ;
            opcode |= only;
        }
    } else if args.len() == 2 {
        let source = args[0].code() as u16;
        let dest = args[1].code() as u16;
        assert(((opcode | (source << 5u8)) | dest) == opcode + source * 32 + dest) by (bit_vector)
            requires
                source < 8,
                dest < 8,
                opcode & 0x3ff == 0,
        ;
        opcode |= source << crate::microcodes::SOURCE_SHIFT;
        opcode |= dest;
    }
    opcode
}

/// Encodes a program: the words of its statements, in order, with every
/// constant resolved against `labels`. It fails at the first constant that
/// is neither a decimal word nor a label of the table.
pub fn generate_binary(ast: &Vec<Statement>, labels: &Labels) -> (encoded: Result<
    Vec<u16>,
    AssemblyError,
>)
    ensures
        binary_result(encoded) == binary(statements_view(ast@), labels@),
{
    let ghost all = statements_view(ast@);
    let mut ret: Vec<u16> = Vec::new();
    let mut i: usize = 0;
    while i < ast.len()
        invariant
            i <= ast@.len(),
            all == statements_view(ast@),
            binary_upto(all, labels@, i as nat) == Ok::<Seq<u16>, (AssemblyErrorKind, nat)>(ret@),
        decreases ast@.len() - i,
    {
        let ghost before = ret@;
        match &ast[i] {
            Statement::Command(c, args) => {
                ret.push(encode_command(*c, args.as_slice()));
                assert(ret@ =~= before + seq![command_word(*c, args@)]);
            },
            Statement::Ldcnst(reg, data) => {
                let single: [REG; 1] = [*reg];
                assert(single@ =~= seq![*reg]);
                let opcode = encode_command(INSTRUCTION::LDCNST, &single);
                match resolve(data.as_slice(), labels) {
                    Ok(constant) => {
                        ret.push(opcode);
                        ret.push(constant);
                        assert(ret@ =~= before + seq![
                            command_word(INSTRUCTION::LDCNST, seq![*reg]),
                            constant,
                        ]);
                    },
                    Err(kind) => {
                        proof {
                            lemma_binary_fails(all, labels@, (i + 1) as nat, all.len());
                        }
                        return Err(AssemblyError { kind, index: i });
                    },
                }
            },
            Statement::Label(_) => {
                assert(ret@ =~= before + seq![]);
            },
            Statement::Data(d) => {
                let mut k: usize = 0;
                while k < d.len()
                    invariant
                        k <= d@.len(),
                        ret@ == before + d@.subrange(0, k as int).map_values(|b: u8| b as u16),
                    decreases d@.len() - k,
                {
                    ret.push(d[k] as u16);
                    assert(ret@ =~= before + d@.subrange(0, k + 1).map_values(|b: u8| b as u16));
                    k += 1;
                }
                assert(d@.subrange(0, d@.len() as int) =~= d@);
            },
        }
        i += 1;
    }
    Ok(ret)
}

/// Once a statement cannot be encoded, the error stays the first.
proof fn lemma_binary_fails(
    statements: Seq<StatementModel>,
    labels: Map<Seq<u8>, u16>,
    n: nat,
    m: nat,
)
    requires
        n <= m,
        binary_upto(statements, labels, n) is Err,
    ensures
        binary_upto(statements, labels, m) == binary_upto(statements, labels, n),
    decreases m - n,
{
    if n < m {
        lemma_binary_fails(statements, labels, n, (m - 1) as nat);
    }
}

/// The bytes of a sequence of words, each word as its high byte followed
/// by its low byte.
pub open spec fn big_endian(words: Seq<u16>) -> Seq<u8> {
    Seq::new(
        2 * words.len(),
        |i: int|
            if i % 2 == 0 {
                (words[i / 2] / 256) as u8
            } else {
                (words[i / 2] % 256) as u8
            },
    )
}

/// Writes words out as bytes in network byte order.
pub fn to_bytes(input: Vec<u16>) -> (bytes: Vec<u8>)
    ensures
        bytes@ == big_endian(input@),
{
    let mut bytes: Vec<u8> = Vec::new();
    let mut i: usize = 0;
    while i < input.len()
        invariant
            i <= input@.len(),
            bytes@.len() == 2 * i,
            forall|k: int| 0 <= k < 2 * i ==> bytes@[k] == big_endian(input@)[k],
        decreases input@.len() - i,
    {
        let value = input[i];
        bytes.push((value / 256) as u8);
        bytes.push((value % 256) as u8);
        i += 1;
    }
    assert(bytes@ =~= big_endian(input@));
    bytes
}

/// What the assembler writes out, the machine reads in: word `i` of a
/// program is the word that the image of the program holds for address
/// `i`, and behind the program the image holds zeros.
pub proof fn lemma_image_holds_words(words: Seq<u16>, i: int)
    requires
        0 <= i,
    ensures
        image_word(big_endian(words), i) == if i < words.len() {
            words[i]
        } else {
            0
        },
{
    if i < words.len() {
        let bytes = big_endian(words);
        assert(bytes[2 * i] == (words[i] / 256) as u8);
        assert(bytes[2 * i + 1] == (words[i] % 256) as u8);
    }
}

/// The program image of a source text: the text is read, its labels are
/// laid out from an empty table, its statements are encoded and the words
/// are written out in network byte order. The first error of the first
/// stage that fails is the result.
pub open spec fn image_of(text: Seq<u8>) -> Result<Seq<u8>, (AssemblyErrorKind, nat)> {
    match program(text) {
        Err(error) => Err(error),
        Ok(statements) => {
            if exists|i: int| label_out_of_reach(statements, i) {
                let first = choose|i: int|
                    label_out_of_reach(statements, i) && forall|k: int|
                        k < i ==> !label_out_of_reach(statements, k);
                Err((AssemblyErrorKind::ProgramTooLarge, first as nat))
            } else {
                let labels = labels_upto(statements, statements.len(), Map::empty());
                match binary(statements, labels) {
                    Err(error) => Err(error),
                    Ok(words) => Ok(big_endian(words)),
                }
            }
        },
    }
}

/// What assembling gave, as plain values.
pub open spec fn image_result(image: Result<Vec<u8>, AssemblyError>) -> Result<
    Seq<u8>,
    (AssemblyErrorKind, nat),
> {
    match image {
        Ok(bytes) => Ok(bytes@),
        Err(error) => Err((error.kind, error.index as nat)),
    }
}

/// Assembles a source text into a program image. No image comes out of a
/// text with an error.
pub fn assemble(text: &[u8]) -> (image: Result<Vec<u8>, AssemblyError>)
    ensures
        image_result(image) == image_of(text@),
{
    let ast = match parse_text(text) {
        Ok(ast) => ast,
        Err(error) => {
            return Err(error);
        },
    };
    let ghost statements = statements_view(ast@);
    let mut labels = Labels::new();
    match populate_labels(&ast, &mut labels) {
        Ok(()) => {},
        Err(error) => {
            proof {
                let first = choose|i: int|
                    label_out_of_reach(statements, i) && forall|k: int|
                        k < i ==> !label_out_of_reach(statements, k);
                assert(label_out_of_reach(statements, error.index as int));
                if first < error.index {
                    assert(!label_out_of_reach(statements, first));
                } else if first > error.index {
                    assert(!label_out_of_reach(statements, error.index as int));
                }
            }
            return Err(error);
        },
    }
    match generate_binary(&ast, &labels) {
        Ok(words) => Ok(to_bytes(words)),
        Err(error) => Err(error),
    }
}

} // verus!
