//! The interpreter: a registry of named matrices, a last-result slot, and
//! the dispatcher from a parsed command to the matrix operations.
//!
//! Every reply is a plain string; failures are embedded in the reply text,
//! never raised. The registry holds one slot per uppercase letter.

use vstd::prelude::*;
use crate::matrix::{
    fits_cell, literal_ok, literal_rect, mat_add, num_tokens_from, parse_matrix_data, render,
    row_segments_from, int_token_val, sum_matrices, Matrix, MatrixError, DecodeError,
};
use crate::parser::{valid_name, ParsedCommand};
use crate::text::{
    digit_end, digits_val, is_digit, is_digit_char, push_dec_u64, scan_digits, str_eq,
};
use vstd::string::StrSliceExecFns;
use vstd::string::StringExecFns;

verus! {

/// Owns the matrix registry and the last-result slot; interprets one parsed
/// command at a time.
pub struct Calculator {
    /// One slot per uppercase-letter name, `A` first.
    pub memory: Vec<Option<Matrix>>,
    /// The most recently computed matrix, readable through the `ans`
    /// argument of a define command.
    pub ans_mat: Matrix,
}

/// Registry slot of a valid single-letter name.
pub open spec fn name_index(name: Seq<char>) -> int {
    name[0] as int - 65
}

/// The registry entry a textual key refers to: the slot of a valid name,
/// nothing otherwise.
pub open spec fn lookup(mem: Seq<Option<Matrix>>, key: Seq<char>) -> Option<Matrix> {
    if valid_name(key) && name_index(key) < mem.len() {
        mem[name_index(key)]
    } else {
        None
    }
}

/// The argument text that names the last result, compared without regard to
/// ASCII case.
pub open spec fn is_ans_arg(s: Seq<char>) -> bool {
    s.len() == 3 && (s[0] == 'a' || s[0] == 'A') && (s[1] == 'n' || s[1] == 'N') && (s[2] == 's'
        || s[2] == 'S')
}

/// A `<rows>x<cols>` shape pattern begins at `i`: a run of digits, an `x`,
/// and at least one further digit.
pub open spec fn dims_match_at(s: Seq<char>, i: int) -> bool {
    0 <= i < s.len() && is_digit_char(s[i]) && digit_end(s, i) < s.len() && s[digit_end(s, i)]
        == 'x' && digit_end(s, i) + 1 < s.len() && is_digit_char(s[digit_end(s, i) + 1])
}

/// The first shape pattern at or after `i`, as the values of its two digit
/// runs.
pub open spec fn dims_from(s: Seq<char>, i: int) -> Option<(nat, nat)>
    decreases s.len() - i,
{
    if i < 0 || i >= s.len() {
        None
    } else if dims_match_at(s, i) {
        Some(
            (
                digits_val(s.subrange(i, digit_end(s, i))),
                digits_val(s.subrange(digit_end(s, i) + 1, digit_end(s, digit_end(s, i) + 1))),
            ),
        )
    } else {
        dims_from(s, i + 1)
    }
}

/// The shape a define command gives a new matrix: the first shape pattern of
/// its argument text, or zero by zero where there is none or where a value
/// does not fit a machine word.
pub open spec fn define_dims(s: Seq<char>) -> (nat, nat) {
    match dims_from(s, 0) {
        Some(d) => if d.0 <= usize::MAX && d.1 <= usize::MAX {
            d
        } else {
            (0, 0)
        },
        None => (0, 0),
    }
}

/// The confirmation reply of a define command.
pub open spec fn defined_msg(name: Seq<char>, m: nat, n: nat) -> Seq<char> {
    "Defined Matrix "@ + name + " as "@ + crate::text::dec_nat(m) + "x"@ + crate::text::dec_nat(n)
        + " matrix"@
}

/// The reply when a named matrix is not in the registry.
pub open spec fn not_found_msg(name: Seq<char>) -> Seq<char> {
    "Matrix '"@ + name + "' not found in memory."@
}

/// The confirmation reply of a populate command.
pub open spec fn populated_msg(name: Seq<char>) -> Seq<char> {
    "Populated Matrix "@ + name + " with data."@
}

/// The reply when the argument of a populate command cannot be decoded.
pub open spec fn decode_err_msg(e: DecodeError) -> Seq<char> {
    match e {
        DecodeError::InvalidNumber => "Error parsing matrix data: invalid number literal"@,
        DecodeError::InconsistentRowLengths => "Error parsing matrix data: Rows have inconsistent lengths."@,
    }
}

/// The reply when an add command cannot produce a matrix.
pub open spec fn sum_err_msg(e: MatrixError) -> Seq<char> {
    if e == MatrixError::DimensionMismatch {
        "Matrices must have the same dimensions for addition."@
    } else {
        "Matrix addition overflowed."@
    }
}

/// Every elementwise sum of two same-shaped operands fits in a cell.
pub open spec fn add_fits(a: Seq<Seq<int>>, b: Seq<Seq<int>>, rows: int, cols: int) -> bool {
    forall|i: int, j: int|
        #![trigger a[i][j]]
        0 <= i < rows && 0 <= j < cols ==> fits_cell(a[i][j] + b[i][j])
}

/// The command keywords, each pair of aliases sharing one behaviour.
pub open spec fn is_define_cmd(c: Seq<char>) -> bool {
    c == "define"@ || c == "def"@
}

pub open spec fn is_show_cmd(c: Seq<char>) -> bool {
    c == "echo"@ || c == "show"@
}

pub open spec fn is_fill_cmd(c: Seq<char>) -> bool {
    c == "populate"@ || c == "fill"@
}

pub open spec fn is_sum_cmd(c: Seq<char>) -> bool {
    c == "add"@ || c == "sum"@
}

impl Calculator {
    /// The registry has its 26 slots and holds only well-formed matrices.
    pub open spec fn wf(&self) -> bool {
        self.memory@.len() == 26 && (forall|k: int|
            0 <= k < 26 ==> (#[trigger] self.memory@[k] matches Some(m) ==> m.wf()))
            && self.ans_mat.wf()
    }

    /// An interpreter with an empty registry and a one-by-one zero matrix in
    /// the last-result slot.
    pub fn new() -> (c: Calculator)
        ensures
            c.wf(),
            forall|k: int| 0 <= k < 26 ==> #[trigger] c.memory@[k] is None,
            c.ans_mat.rows == 1,
            c.ans_mat.cols == 1,
    {
        let mut memory: Vec<Option<Matrix>> = Vec::new();
        let mut i: usize = 0;
        while i < 26
            invariant
                i <= 26,
                memory@.len() == i,
                forall|k: int| 0 <= k < i ==> #[trigger] memory@[k] is None,
            decreases 26 - i,
        {
            memory.push(None);
            i += 1;
        }
        Calculator { memory, ans_mat: Matrix::new(1, 1) }
    }
}

/// Registry slot of a valid name, as a machine index.
fn name_slot(name: &str) -> (i: usize)
    requires
        valid_name(name@),
    ensures
        i as int == name_index(name@),
        i < 26,
{
    ((name.get_char(0) as u32) - 65) as usize
}

/// Tests the `ans` sentinel, without regard to ASCII case.
fn check_ans(s: &str) -> (r: bool)
    ensures
        r == is_ans_arg(s@),
{
    if s.unicode_len() != 3 {
        return false;
    }
    let c0 = s.get_char(0);
    let c1 = s.get_char(1);
    let c2 = s.get_char(2);
    (c0 == 'a' || c0 == 'A') && (c1 == 'n' || c1 == 'N') && (c2 == 's' || c2 == 'S')
}

/// Decodes the digit run `s[start..end]`; fails where the value does not fit
/// a machine word.
fn parse_digits_usize(s: &str, start: usize, end: usize) -> (r: Option<usize>)
    requires
        start <= end <= s@.len(),
        forall|k: int| start <= k < end ==> is_digit_char(#[trigger] s@[k]),
    ensures
        r is Some <==> digits_val(s@.subrange(start as int, end as int)) <= usize::MAX,
        r matches Some(v) ==> v as nat == digits_val(s@.subrange(start as int, end as int)),
{
    let mut acc: usize = 0;
    let mut over: bool = false;
    let mut k: usize = start;
    while k < end
        invariant
            start <= k <= end <= s@.len(),
            forall|q: int| start <= q < end ==> is_digit_char(#[trigger] s@[q]),
            !over ==> acc as nat == digits_val(s@.subrange(start as int, k as int)),
            over ==> digits_val(s@.subrange(start as int, k as int)) > usize::MAX,
        decreases end - k,
    {
        let c = s.get_char(k);
        let d: usize = ((c as u32) - 48) as usize;
        proof {
            assert(s@.subrange(start as int, k + 1).drop_last() =~= s@.subrange(
                start as int,
                k as int,
            ));
            assert(s@.subrange(start as int, k + 1).last() == s@[k as int]);
            assert(d as nat == crate::text::digit_val(s@[k as int]));
        }
        if over {
        } else {
            match acc.checked_mul(10) {
                None => over = true,
                Some(a1) => match a1.checked_add(d) {
                    None => over = true,
                    Some(a2) => acc = a2,
                },
            }
        }
        k += 1;
    }
    if over {
        None
    } else {
        Some(acc)
    }
}

/// Finds the first `<rows>x<cols>` pattern in the argument text.
fn find_dims(args: &str) -> (r: (usize, usize))
    ensures
        r.0 as nat == define_dims(args@).0,
        r.1 as nat == define_dims(args@).1,
{
    let n = args.unicode_len();
    let mut p: usize = 0;
    while p < n
        invariant
            n == args@.len(),
            p <= n,
            dims_from(args@, 0) == dims_from(args@, p as int),
        decreases n - p,
    {
        let c = args.get_char(p);
        if is_digit(c) {
            let e = scan_digits(args, p);
            if e < n && args.get_char(e) == 'x' && e + 1 < n && is_digit(args.get_char(e + 1)) {
                let e2 = scan_digits(args, e + 1);
                proof {
                    assert(dims_match_at(args@, p as int));
                    crate::text::lemma_digit_end_digits(args@, p as int);
                    crate::text::lemma_digit_end_digits(args@, e + 1);
                }
                let m_opt = parse_digits_usize(args, p, e);
                let n_opt = parse_digits_usize(args, e + 1, e2);
                match (m_opt, n_opt) {
                    (Some(m), Some(nn)) => {
                        return (m, nn);
                    },
                    _ => {
                        return (0, 0);
                    },
                }
            } else {
                proof {
                    assert(!dims_match_at(args@, p as int));
                }
                p += 1;
            }
        } else {
            proof {
                assert(!dims_match_at(args@, p as int));
            }
            p += 1;
        }
    }
    (0, 0)
}

/// Builds the confirmation reply of a define command.
fn msg_defined(name: &str, m: usize, n: usize) -> (res: String)
    ensures
        res@ == defined_msg(name@, m as nat, n as nat),
{
    proof {
        reveal_strlit("Defined Matrix ");
        reveal_strlit(" as ");
        reveal_strlit("x");
        reveal_strlit(" matrix");
    }
    let mut out = String::new();
    out.append("Defined Matrix ");
    out.append(name);
    out.append(" as ");
    push_dec_u64(&mut out, m as u64);
    out.append("x");
    push_dec_u64(&mut out, n as u64);
    out.append(" matrix");
    proof {
        assert(out@ =~= defined_msg(name@, m as nat, n as nat));
    }
    out
}

/// Builds the reply for a name that is not in the registry.
fn msg_not_found(name: &str) -> (res: String)
    ensures
        res@ == not_found_msg(name@),
{
    proof {
        reveal_strlit("Matrix '");
        reveal_strlit("' not found in memory.");
    }
    let mut out = String::new();
    out.append("Matrix '");
    out.append(name);
    out.append("' not found in memory.");
    proof {
        assert(out@ =~= not_found_msg(name@));
    }
    out
}

/// Builds the confirmation reply of a populate command.
fn msg_populated(name: &str) -> (res: String)
    ensures
        res@ == populated_msg(name@),
{
    proof {
        reveal_strlit("Populated Matrix ");
        reveal_strlit(" with data.");
    }
    let mut out = String::new();
    out.append("Populated Matrix ");
    out.append(name);
    out.append(" with data.");
    proof {
        assert(out@ =~= populated_msg(name@));
    }
    out
}

/// What a define command does: the named slot holds a fresh matrix — a copy
/// of the last result on the `ans` sentinel, else a zero-filled matrix of
/// the first shape pattern in the argument text — and the reply confirms the
/// name and shape. Nothing else changes.
pub open spec fn define_post(
    c0: Calculator,
    c1: Calculator,
    name: Seq<char>,
    args: Seq<char>,
    res: Seq<char>,
) -> bool {
    &&& c1.wf()
    &&& c1.ans_mat == c0.ans_mat
    &&& c1.memory@.len() == 26
    &&& forall|k: int|
        0 <= k < 26 && k != name_index(name) ==> #[trigger] c1.memory@[k] == c0.memory@[k]
    &&& (is_ans_arg(args) ==> {
        &&& c1.memory@[name_index(name)] matches Some(m) && m.rows == c0.ans_mat.rows && m.cols
            == c0.ans_mat.cols && m@ == c0.ans_mat@
        &&& res == defined_msg(name, c0.ans_mat.rows as nat, c0.ans_mat.cols as nat)
    })
    &&& (!is_ans_arg(args) ==> {
        &&& c1.memory@[name_index(name)] matches Some(m) && m.rows as nat == define_dims(args).0
            && m.cols as nat == define_dims(args).1 && (forall|i: int, j: int|
            0 <= i < m.rows && 0 <= j < m.cols ==> #[trigger] m@[i][j] == 0)
        &&& res == defined_msg(name, define_dims(args).0, define_dims(args).1)
    })
}

/// What a show command replies: the rendered matrix, or the not-found text.
pub open spec fn show_post(c: Calculator, name: Seq<char>, res: Seq<char>) -> bool {
    &&& (lookup(c.memory@, name) matches Some(m) ==> res == render(m@))
    &&& (lookup(c.memory@, name) is None ==> res == not_found_msg(name))
}

/// What a populate command does: where the named matrix exists and the
/// argument text decodes, the slot holds the decoded matrix wholesale, its
/// shape reconciled to the decoded rows; otherwise nothing changes and the
/// reply carries the failure.
pub open spec fn fill_post(
    c0: Calculator,
    c1: Calculator,
    name: Seq<char>,
    args: Seq<char>,
    res: Seq<char>,
) -> bool {
    &&& c1.wf()
    &&& c1.ans_mat == c0.ans_mat
    &&& c1.memory@.len() == 26
    &&& forall|k: int|
        0 <= k < 26 && k != name_index(name) ==> #[trigger] c1.memory@[k] == c0.memory@[k]
    &&& (lookup(c0.memory@, name) is None ==> c1.memory@ == c0.memory@ && res == not_found_msg(
        name,
    ))
    &&& (lookup(c0.memory@, name) is Some ==> {
        &&& (literal_ok(args) && literal_rect(args) ==> {
            &&& c1.memory@[name_index(name)] matches Some(fm) && fm.rows == row_segments_from(
                args,
                0,
            ).len() && (fm.rows > 0 ==> fm.cols == num_tokens_from(
                row_segments_from(args, 0)[0],
                0,
            ).len()) && (fm.rows == 0 ==> fm.cols == 0) && (forall|i: int, k: int|
                0 <= i < fm@.len() && 0 <= k < fm@[i].len() ==> #[trigger] fm@[i][k]
                    == int_token_val(num_tokens_from(row_segments_from(args, 0)[i], 0)[k]))
            &&& res == populated_msg(name)
        })
        &&& (!literal_ok(args) ==> c1.memory@ == c0.memory@ && res == decode_err_msg(
            DecodeError::InvalidNumber,
        ))
        &&& (literal_ok(args) && !literal_rect(args) ==> c1.memory@ == c0.memory@ && res
            == decode_err_msg(DecodeError::InconsistentRowLengths))
    })
}

/// What an add command does: with both operands present and of one shape,
/// and every sum in range, the last-result slot holds the elementwise sum
/// and the reply renders it; otherwise nothing changes and the reply carries
/// the failure. The registry is never changed.
pub open spec fn sum_post(
    c0: Calculator,
    c1: Calculator,
    name: Seq<char>,
    args: Seq<char>,
    res: Seq<char>,
) -> bool {
    &&& c1.wf()
    &&& c1.memory@ == c0.memory@
    &&& (lookup(c0.memory@, name) is None ==> c1.ans_mat == c0.ans_mat && res == not_found_msg(
        name,
    ))
    &&& (lookup(c0.memory@, name) matches Some(m1) ==> {
        &&& (lookup(c0.memory@, args) is None ==> c1.ans_mat == c0.ans_mat && res
            == not_found_msg(args))
        &&& (lookup(c0.memory@, args) matches Some(m2) ==> {
            &&& (!crate::matrix::same_shape(&m1, &m2) ==> c1.ans_mat == c0.ans_mat && res
                == sum_err_msg(MatrixError::DimensionMismatch))
            &&& (crate::matrix::same_shape(&m1, &m2) && !add_fits(
                m1@,
                m2@,
                m1.rows as int,
                m1.cols as int,
            ) ==> c1.ans_mat == c0.ans_mat && res == sum_err_msg(MatrixError::Overflow))
            &&& (crate::matrix::same_shape(&m1, &m2) && add_fits(
                m1@,
                m2@,
                m1.rows as int,
                m1.cols as int,
            ) ==> c1.ans_mat.rows == m1.rows && c1.ans_mat.cols == m1.cols && c1.ans_mat@
                == mat_add(m1@, m2@) && res == render(mat_add(m1@, m2@)))
        })
    })
}

impl Calculator {
    /// Inserts a fresh matrix under the given name: a copy of the last
    /// result on the `ans` sentinel, else a zero-filled matrix of the shape
    /// named in the argument text.
    fn define(&mut self, matrix_name: String, args: String) -> (res: String)
        requires
            old(self).wf(),
            valid_name(matrix_name@),
        ensures
            define_post(*old(self), *final(self), matrix_name@, args@, res@),
    {
        let idx = name_slot(matrix_name.as_str());
        if check_ans(args.as_str()) {
            let m = self.ans_mat.duplicate();
            let res = msg_defined(matrix_name.as_str(), m.rows, m.cols);
            self.memory[idx] = Some(m);
            res
        } else {
            let (dm, dn) = find_dims(args.as_str());
            let m = Matrix::new(dm, dn);
            self.memory[idx] = Some(m);
            msg_defined(matrix_name.as_str(), dm, dn)
        }
    }

    /// Renders the named matrix, or reports that it is not in the registry.
    fn show(&self, matrix_name: String) -> (res: String)
        requires
            self.wf(),
            valid_name(matrix_name@),
        ensures
            show_post(*self, matrix_name@, res@),
    {
        let idx = name_slot(matrix_name.as_str());
        match &self.memory[idx] {
            Some(matrix) => matrix.to_string(),
            None => msg_not_found(matrix_name.as_str()),
        }
    }

    /// Replaces the content of the named matrix with the decoded argument
    /// text, reconciling the recorded shape with the decoded one.
    fn fill(&mut self, matrix_name: String, args: String) -> (res: String)
        requires
            old(self).wf(),
            valid_name(matrix_name@),
        ensures
            fill_post(*old(self), *final(self), matrix_name@, args@, res@),
    {
        let idx = name_slot(matrix_name.as_str());
        if self.memory[idx].is_none() {
            return msg_not_found(matrix_name.as_str());
        }
        match parse_matrix_data(args.as_str()) {
            Ok(parsed_data) => {
                let rows = parsed_data.len();
                let cols = if rows > 0 {
                    parsed_data[0].len()
                } else {
                    0
                };
                let fm = Matrix { rows, cols, data: parsed_data };
                proof {
                    assert forall|ii: int| 0 <= ii < fm.data@.len() implies (#[trigger] fm.data@[ii])@.len()
                        == fm.cols by {
                        assert(fm.data@[ii]@.len() == num_tokens_from(
                            row_segments_from(args@, 0)[ii],
                            0,
                        ).len());
                        assert(fm.data@[0]@.len() == num_tokens_from(
                            row_segments_from(args@, 0)[0],
                            0,
                        ).len());
                    }
                    assert(fm.wf());
                    assert forall|i: int, k: int|
                        0 <= i < fm@.len() && 0 <= k < fm@[i].len() implies #[trigger] fm@[i][k]
                        == int_token_val(
                        num_tokens_from(row_segments_from(args@, 0)[i], 0)[k],
                    ) by {
                        assert(fm@[i][k] == fm.data@[i]@[k] as int);
                    }
                }
                let res = msg_populated(matrix_name.as_str());
                self.memory[idx] = Some(fm);
                res
            },
            Err(DecodeError::InvalidNumber) => String::from_str(
                "Error parsing matrix data: invalid number literal",
            ),
            Err(DecodeError::InconsistentRowLengths) => String::from_str(
                "Error parsing matrix data: Rows have inconsistent lengths.",
            ),
        }
    }

    /// Adds the named matrix and the one named by the argument text, stores
    /// the sum in the last-result slot, and renders it.
    fn sum(&mut self, matrix_name: String, args: String) -> (res: String)
        requires
            old(self).wf(),
            valid_name(matrix_name@),
        ensures
            sum_post(*old(self), *final(self), matrix_name@, args@, res@),
    {
        let idx = name_slot(matrix_name.as_str());
        let m1 = match &self.memory[idx] {
            Some(m) => m.duplicate(),
            None => {
                return msg_not_found(matrix_name.as_str());
            },
        };
        if !crate::parser::check_name(args.as_str()) {
            return msg_not_found(args.as_str());
        }
        let idx2 = name_slot(args.as_str());
        let m2 = match &self.memory[idx2] {
            Some(m) => m.duplicate(),
            None => {
                return msg_not_found(args.as_str());
            },
        };
        match sum_matrices(m1, m2) {
            Ok(result) => {
                let text = result.to_string();
                self.ans_mat = result;
                text
            },
            Err(MatrixError::DimensionMismatch) => String::from_str(
                "Matrices must have the same dimensions for addition.",
            ),
            Err(_) => String::from_str("Matrix addition overflowed."),
        }
    }

    /// Dispatches one parsed command to its behaviour; an unrecognised
    /// keyword is a silent no-op with an empty reply.
    pub fn interpret(&mut self, parsed_command: ParsedCommand) -> (res: String)
        requires
            old(self).wf(),
            valid_name(parsed_command.matrix_name@),
        ensures
            final(self).wf(),
            is_define_cmd(parsed_command.command@) ==> define_post(
                *old(self),
                *final(self),
                parsed_command.matrix_name@,
                parsed_command.args@,
                res@,
            ),
            !is_define_cmd(parsed_command.command@) && is_show_cmd(parsed_command.command@)
                ==> *final(self) == *old(self) && show_post(
                *old(self),
                parsed_command.matrix_name@,
                res@,
            ),
            !is_define_cmd(parsed_command.command@) && !is_show_cmd(parsed_command.command@)
                && is_fill_cmd(parsed_command.command@) ==> fill_post(
                *old(self),
                *final(self),
                parsed_command.matrix_name@,
                parsed_command.args@,
                res@,
            ),
            !is_define_cmd(parsed_command.command@) && !is_show_cmd(parsed_command.command@)
                && !is_fill_cmd(parsed_command.command@) && is_sum_cmd(parsed_command.command@)
                ==> sum_post(
                *old(self),
                *final(self),
                parsed_command.matrix_name@,
                parsed_command.args@,
                res@,
            ),
            !is_define_cmd(parsed_command.command@) && !is_show_cmd(parsed_command.command@)
                && !is_fill_cmd(parsed_command.command@) && !is_sum_cmd(parsed_command.command@)
                ==> *final(self) == *old(self) && res@ == Seq::<char>::empty(),
    {
        let ParsedCommand { command, matrix_name, args } = parsed_command;
        if str_eq(command.as_str(), "define") || str_eq(command.as_str(), "def") {
            self.define(matrix_name, args)
        } else if str_eq(command.as_str(), "echo") || str_eq(command.as_str(), "show") {
            self.show(matrix_name)
        } else if str_eq(command.as_str(), "populate") || str_eq(command.as_str(), "fill") {
            self.fill(matrix_name, args)
        } else if str_eq(command.as_str(), "add") || str_eq(command.as_str(), "sum") {
            self.sum(matrix_name, args)
        } else {
            String::new()
        }
    }
}

} // verus!
