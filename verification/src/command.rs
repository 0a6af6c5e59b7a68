//! Parsing of interactive-mode command lines. A line is split on ASCII
//! whitespace into a command word and up to two numeric arguments;
//! missing or non-numeric arguments fall back to documented defaults,
//! and an unrecognized line is the implicit single step.

use vstd::prelude::*;

verus! {

/// One parsed interactive command.
#[derive(Clone, Copy, Debug, PartialEq, Eq, Structural)]
pub enum Command {
    /// `r` / `run`: run the rest of the program.
    Run,
    /// `s` / `step [n]`: execute the next `n` instructions (default 1);
    /// also what any unrecognized line means.
    Step(usize),
    /// `q` / `quit`: end the session.
    Quit,
    /// `p` / `print [index] [amount]`: show `amount` tape cells starting
    /// at `index` (defaults 0 and 1).
    Print(usize, usize),
    /// `o` / `output`: show the accumulated output.
    ShowOutput,
    /// `c` / `counter`: show the instruction counter.
    ShowCounter,
    /// `d` / `dp`: show the data pointer.
    ShowDp,
    /// `h` / `help`: show the command list.
    Help,
}

/// ASCII whitespace, the token separator of a command line.
pub open spec fn is_space(b: u8) -> bool {
    b == 32 || b == 9 || b == 10 || b == 13
}

/// The first index at or after `i` that does not hold whitespace.
pub open spec fn ws_end(s: Seq<u8>, i: int) -> int
    decreases s.len() - i,
{
    if i < 0 || i >= s.len() {
        i
    } else if is_space(s[i]) {
        ws_end(s, i + 1)
    } else {
        i
    }
}

/// The first index at or after `i` that ends the token there: the next
/// whitespace, or the end of the line.
pub open spec fn tok_end(s: Seq<u8>, i: int) -> int
    decreases s.len() - i,
{
    if i < 0 || i >= s.len() || is_space(s[i]) {
        i
    } else {
        tok_end(s, i + 1)
    }
}

/// An ASCII decimal digit.
pub open spec fn is_digit(b: u8) -> bool {
    48 <= b <= 57
}

pub open spec fn all_digits(t: Seq<u8>) -> bool {
    forall|i: int| 0 <= i < t.len() ==> is_digit(#[trigger] t[i])
}

/// The value of a digit string, most significant digit first.
pub open spec fn digits_val(t: Seq<u8>) -> int
    decreases t.len(),
{
    if t.len() == 0 {
        0
    } else {
        digits_val(t.drop_last()) * 10 + (t.last() - 48)
    }
}

/// What a numeric argument token denotes: a value, where the token is a
/// nonempty digit string whose value is representable; nothing otherwise.
pub open spec fn parse_num_spec(t: Seq<u8>) -> Option<usize> {
    if t.len() > 0 && all_digits(t) && digits_val(t) <= usize::MAX as int {
        Some(digits_val(t) as usize)
    } else {
        None
    }
}

/// A numeric argument, falling back to its documented default.
pub open spec fn num_or(t: Seq<u8>, d: usize) -> usize {
    match parse_num_spec(t) {
        Some(v) => v,
        None => d,
    }
}

/// The command a line denotes. The first whitespace-separated token picks
/// the command, the following tokens are its numeric arguments.
pub open spec fn parse_command_spec(s: Seq<u8>) -> Command {
    let a1 = ws_end(s, 0);
    let b1 = tok_end(s, a1);
    let t1 = s.subrange(a1, b1);
    let a2 = ws_end(s, b1);
    let b2 = tok_end(s, a2);
    let t2 = s.subrange(a2, b2);
    let a3 = ws_end(s, b2);
    let b3 = tok_end(s, a3);
    let t3 = s.subrange(a3, b3);
    if t1 == seq!['r' as u8] || t1 == seq!['r' as u8, 'u' as u8, 'n' as u8] {
        Command::Run
    } else if t1 == seq!['s' as u8] || t1 == seq!['s' as u8, 't' as u8, 'e' as u8, 'p' as u8] {
        Command::Step(num_or(t2, 1))
    } else if t1 == seq!['q' as u8] || t1 == seq!['q' as u8, 'u' as u8, 'i' as u8, 't' as u8] {
        Command::Quit
    } else if t1 == seq!['p' as u8] || t1 == seq![
        'p' as u8,
        'r' as u8,
        'i' as u8,
        'n' as u8,
        't' as u8,
    ] {
        Command::Print(num_or(t2, 0), num_or(t3, 1))
    } else if t1 == seq!['o' as u8] || t1 == seq![
        'o' as u8,
        'u' as u8,
        't' as u8,
        'p' as u8,
        'u' as u8,
        't' as u8,
    ] {
        Command::ShowOutput
    } else if t1 == seq!['h' as u8] || t1 == seq!['h' as u8, 'e' as u8, 'l' as u8, 'p' as u8] {
        Command::Help
    } else if t1 == seq!['c' as u8] || t1 == seq![
        'c' as u8,
        'o' as u8,
        'u' as u8,
        'n' as u8,
        't' as u8,
        'e' as u8,
        'r' as u8,
    ] {
        Command::ShowCounter
    } else if t1 == seq!['d' as u8] || t1 == seq!['d' as u8, 'p' as u8] {
        Command::ShowDp
    } else {
        Command::Step(1)
    }
}

fn skip_ws(line: &[u8], from: usize) -> (r: usize)
    requires
        from <= line@.len(),
    ensures
        from <= r <= line@.len(),
        r == ws_end(line@, from as int),
{
    let mut i: usize = from;
    while i < line.len()
        invariant
            from <= i <= line@.len(),
            ws_end(line@, from as int) == ws_end(line@, i as int),
        decreases line@.len() - i,
    {
        let b = line[i];
        if b == 32 || b == 9 || b == 10 || b == 13 {
            i += 1;
        } else {
            return i;
        }
    }
    i
}

fn scan_token(line: &[u8], from: usize) -> (r: usize)
    requires
        from <= line@.len(),
    ensures
        from <= r <= line@.len(),
        r == tok_end(line@, from as int),
{
    let mut i: usize = from;
    while i < line.len()
        invariant
            from <= i <= line@.len(),
            tok_end(line@, from as int) == tok_end(line@, i as int),
        decreases line@.len() - i,
    {
        let b = line[i];
        if b == 32 || b == 9 || b == 10 || b == 13 {
            return i;
        } else {
            i += 1;
        }
    }
    i
}

/// Whether the token `line[a..b)` is the word `w`.
fn tok_is(line: &[u8], a: usize, b: usize, w: &[u8]) -> (r: bool)
    requires
        a <= b <= line@.len(),
    ensures
        r == (line@.subrange(a as int, b as int) == w@),
{
    let ghost t = line@.subrange(a as int, b as int);
    if b - a != w.len() {
        return false;
    }
    let mut i: usize = 0;
    while i < w.len()
        invariant
            a <= b <= line@.len(),
            b - a == w@.len(),
            i <= w@.len(),
            t == line@.subrange(a as int, b as int),
            forall|j: int| 0 <= j < i ==> t[j] == w@[j],
        decreases w@.len() - i,
    {
        proof {
            assert(t[i as int] == line@[a + i]);
        }
        if line[a + i] != w[i] {
            return false;
        }
        i += 1;
    }
    proof {
        assert(t =~= w@);
    }
    true
}

proof fn lemma_digits_val_nonneg(t: Seq<u8>)
    requires
        all_digits(t),
    ensures
        digits_val(t) >= 0,
    decreases t.len(),
{
    if t.len() > 0 {
        assert(all_digits(t.drop_last())) by {
            assert forall|i: int| 0 <= i < t.drop_last().len() implies is_digit(
                #[trigger] t.drop_last()[i],
            ) by {
                assert(t.drop_last()[i] == t[i]);
            }
        }
        lemma_digits_val_nonneg(t.drop_last());
    }
}

/// A digit string's value never shrinks as digits are appended.
proof fn lemma_digits_val_prefix(t: Seq<u8>, j: int)
    requires
        all_digits(t),
        0 <= j <= t.len(),
    ensures
        0 <= digits_val(t.take(j)) <= digits_val(t),
    decreases t.len() - j,
{
    assert(all_digits(t.take(j))) by {
        assert forall|i: int| 0 <= i < t.take(j).len() implies is_digit(
            #[trigger] t.take(j)[i],
        ) by {
            assert(t.take(j)[i] == t[i]);
        }
    }
    lemma_digits_val_nonneg(t.take(j));
    if j == t.len() {
        assert(t.take(j) =~= t);
    } else {
        lemma_digits_val_prefix(t, j + 1);
        assert(t.take(j + 1).drop_last() =~= t.take(j));
        assert(t.take(j + 1).last() == t[j]);
        assert(digits_val(t.take(j + 1)) == digits_val(t.take(j)) * 10 + (t[j] - 48));
    }
}

/// Parse the token `line[a..b)` as a decimal number.
fn parse_num(line: &[u8], a: usize, b: usize) -> (r: Option<usize>)
    requires
        a <= b <= line@.len(),
    ensures
        r == parse_num_spec(line@.subrange(a as int, b as int)),
{
    let ghost t = line@.subrange(a as int, b as int);
    if a == b {
        return None;
    }
    let mut acc: usize = 0;
    let mut i: usize = a;
    while i < b
        invariant
            a <= i <= b <= line@.len(),
            t == line@.subrange(a as int, b as int),
            t.len() == b - a,
            all_digits(t.take(i - a)),
            acc == digits_val(t.take(i - a)),
        decreases b - i,
    {
        let c = line[i];
        proof {
            assert(t[i - a] == line@[i as int]);
        }
        if c < 48 || c > 57 {
            return None;
        }
        let d = (c - 48) as usize;
        proof {
            assert(t.take(i - a + 1).drop_last() =~= t.take(i - a));
            assert(t.take(i - a + 1).last() == t[i - a]);
            assert(all_digits(t.take(i - a + 1))) by {
                assert forall|j: int| 0 <= j < i - a + 1 implies is_digit(
                    #[trigger] t.take(i - a + 1)[j],
                ) by {
                    assert(t.take(i - a + 1)[j] == t[j]);
                }
            }
        }
        if acc > usize::MAX / 10 || (acc == usize::MAX / 10 && d > usize::MAX % 10) {
            proof {
                assert(usize::MAX as int == 10 * (usize::MAX as int / 10) + usize::MAX as int
                    % 10) by {
                    vstd::arithmetic::div_mod::lemma_fundamental_div_mod(usize::MAX as int, 10);
                }
                assert(digits_val(t.take(i - a + 1)) == acc * 10 + d);
                assert(digits_val(t.take(i - a + 1)) > usize::MAX as int);
                if all_digits(t) {
                    lemma_digits_val_prefix(t, i - a + 1);
                    assert(digits_val(t) > usize::MAX as int);
                }
            }
            return None;
        }
        proof {
            assert(usize::MAX as int == 10 * (usize::MAX as int / 10) + usize::MAX as int % 10)
                by {
                vstd::arithmetic::div_mod::lemma_fundamental_div_mod(usize::MAX as int, 10);
            }
            assert(acc * 10 + d <= usize::MAX as int);
        }
        acc = acc * 10 + d;
        i += 1;
    }
    proof {
        assert(t.take((b - a) as int) =~= t);
    }
    Some(acc)
}

/// Parse one interactive command line, as [`parse_command_spec`] says.
pub fn parse_command(line: &[u8]) -> (c: Command)
    ensures
        c == parse_command_spec(line@),
{
    let w_r: &[u8] = &['r' as u8];
    let w_run: &[u8] = &['r' as u8, 'u' as u8, 'n' as u8];
    let w_s: &[u8] = &['s' as u8];
    let w_step: &[u8] = &['s' as u8, 't' as u8, 'e' as u8, 'p' as u8];
    let w_q: &[u8] = &['q' as u8];
    let w_quit: &[u8] = &['q' as u8, 'u' as u8, 'i' as u8, 't' as u8];
    let w_p: &[u8] = &['p' as u8];
    let w_print: &[u8] = &['p' as u8, 'r' as u8, 'i' as u8, 'n' as u8, 't' as u8];
    let w_o: &[u8] = &['o' as u8];
    let w_output: &[u8] = &['o' as u8, 'u' as u8, 't' as u8, 'p' as u8, 'u' as u8, 't' as u8];
    let w_h: &[u8] = &['h' as u8];
    let w_help: &[u8] = &['h' as u8, 'e' as u8, 'l' as u8, 'p' as u8];
    let w_c: &[u8] = &['c' as u8];
    let w_counter: &[u8] = &[
        'c' as u8,
        'o' as u8,
        'u' as u8,
        'n' as u8,
        't' as u8,
        'e' as u8,
        'r' as u8,
    ];
    let w_d: &[u8] = &['d' as u8];
    let w_dp: &[u8] = &['d' as u8, 'p' as u8];
    proof {
        assert(w_r@ =~= seq!['r' as u8]);
        assert(w_run@ =~= seq!['r' as u8, 'u' as u8, 'n' as u8]);
        assert(w_s@ =~= seq!['s' as u8]);
        assert(w_step@ =~= seq!['s' as u8, 't' as u8, 'e' as u8, 'p' as u8]);
        assert(w_q@ =~= seq!['q' as u8]);
        assert(w_quit@ =~= seq!['q' as u8, 'u' as u8, 'i' as u8, 't' as u8]);
        assert(w_p@ =~= seq!['p' as u8]);
        assert(w_print@ =~= seq!['p' as u8, 'r' as u8, 'i' as u8, 'n' as u8, 't' as u8]);
        assert(w_o@ =~= seq!['o' as u8]);
        assert(w_output@ =~= seq![
            'o' as u8,
            'u' as u8,
            't' as u8,
            'p' as u8,
            'u' as u8,
            't' as u8,
        ]);
        assert(w_h@ =~= seq!['h' as u8]);
        assert(w_help@ =~= seq!['h' as u8, 'e' as u8, 'l' as u8, 'p' as u8]);
        assert(w_c@ =~= seq!['c' as u8]);
        assert(w_counter@ =~= seq![
            'c' as u8,
            'o' as u8,
            'u' as u8,
            'n' as u8,
            't' as u8,
            'e' as u8,
            'r' as u8,
        ]);
        assert(w_d@ =~= seq!['d' as u8]);
        assert(w_dp@ =~= seq!['d' as u8, 'p' as u8]);
    }
    let a1 = skip_ws(line, 0);
    let b1 = scan_token(line, a1);
    let a2 = skip_ws(line, b1);
    let b2 = scan_token(line, a2);
    let a3 = skip_ws(line, b2);
    let b3 = scan_token(line, a3);
    if tok_is(line, a1, b1, w_r) || tok_is(line, a1, b1, w_run) {
        Command::Run
    } else if tok_is(line, a1, b1, w_s) || tok_is(line, a1, b1, w_step) {
        let n = match parse_num(line, a2, b2) {
            Some(v) => v,
            None => 1,
        };
        Command::Step(n)
    } else if tok_is(line, a1, b1, w_q) || tok_is(line, a1, b1, w_quit) {
        Command::Quit
    } else if tok_is(line, a1, b1, w_p) || tok_is(line, a1, b1, w_print) {
        let index = match parse_num(line, a2, b2) {
            Some(v) => v,
            None => 0,
        };
        let amount = match parse_num(line, a3, b3) {
            Some(v) => v,
            None => 1,
        };
        Command::Print(index, amount)
    } else if tok_is(line, a1, b1, w_o) || tok_is(line, a1, b1, w_output) {
        Command::ShowOutput
    } else if tok_is(line, a1, b1, w_h) || tok_is(line, a1, b1, w_help) {
        Command::Help
    } else if tok_is(line, a1, b1, w_c) || tok_is(line, a1, b1, w_counter) {
        Command::ShowCounter
    } else if tok_is(line, a1, b1, w_d) || tok_is(line, a1, b1, w_dp) {
        Command::ShowDp
    } else {
        Command::Step(1)
    }
}

} // verus!
