//! Statements that span lines: calls, assignments, list comprehensions.

use vstd::prelude::*;
use vstd::string::*;
use crate::scan::{
    assignment, bzl_top_level_assignment, delimiter_delta, is_bzl_identifier, is_identifier,
    law_no_comment, nest, paren_delta, paren_sum, positions_as_int, strip_bzl_comment,
    without_comment,
};
use crate::text::{
    Text, char_is_ascii_alphanumeric, char_is_whitespace, chars_of, contains_char,
    is_ascii_alphanumeric, is_whitespace, lines, starts_with, trim, trim_of, trim_start,
    trim_start_of,
};

verus! {

/// A running bracket balance over lines.
pub struct Balance {
    pub opened: u128,
    pub closed: u128,
}

proof fn lemma_balance_bound(lines: int, max: int)
    by (nonlinear_arith)
    requires
        0 <= lines < max,
        max <= 0xffff_ffff_ffff_ffff,
    ensures
        0 <= lines * max,
        lines * max + max == (lines + 1) * max,
        (lines + 1) * max <= 0xffff_ffff_ffff_ffff * 0xffff_ffff_ffff_ffff,
{
}

impl Balance {
    pub open spec fn value(&self) -> int {
        self.opened - self.closed
    }

    pub open spec fn bounded(&self, lines: int) -> bool {
        self.opened <= lines * usize::MAX && self.closed <= lines * usize::MAX
    }

    /// Adds the balance of one more line.
    pub fn include_line(&mut self, d: i128, Ghost(lines): Ghost<int>)
        requires
            0 <= lines < usize::MAX,
            old(self).bounded(lines),
            -usize::MAX <= d <= usize::MAX,
        ensures
            final(self).value() == old(self).value() + d,
            final(self).bounded(lines + 1),
    {
        proof {
            lemma_balance_bound(lines, usize::MAX as int);
        }
        if d >= 0 {
            self.opened = self.opened + d as u128;
        } else {
            self.closed = self.closed + (-d) as u128;
        }
    }

    /// Starts with the balance of one line.
    pub fn of_line(d: i128) -> (r: Self)
        requires
            -usize::MAX <= d <= usize::MAX,
        ensures
            r.value() == d,
            r.bounded(1),
    {
        if d >= 0 {
            Balance { opened: d as u128, closed: 0 }
        } else {
            Balance { opened: 0, closed: (-d) as u128 }
        }
    }
}

/// A line, comment and indentation apart.
pub open spec fn bare_line(line: Text) -> Text {
    trim_start(without_comment(line))
}

/// The parentheses open after line `j` of a call that starts in line `i`.
pub open spec fn call_balance(lines: Seq<Text>, i: int, j: int) -> int
    decreases j - i,
{
    if j <= i {
        paren_sum(bare_line(lines[i]))
    } else {
        call_balance(lines, i, j - 1) + paren_sum(without_comment(lines[j]))
    }
}

/// The text of lines `i` to `j` of a call.
pub open spec fn call_text(lines: Seq<Text>, i: int, j: int) -> Text
    decreases j - i,
{
    if j <= i {
        bare_line(lines[i])
    } else {
        call_text(lines, i, j - 1).push('\n') + without_comment(lines[j])
    }
}

/// The first line from `j` on after which no parenthesis of the call is open.
pub open spec fn call_last_line(lines: Seq<Text>, i: int, j: int) -> Option<int>
    decreases lines.len() - j,
{
    if j < i || j >= lines.len() {
        None
    } else if call_balance(lines, i, j) <= 0 {
        Some(j)
    } else {
        call_last_line(lines, i, j + 1)
    }
}

pub proof fn lemma_call_last_line(lines: Seq<Text>, i: int, j: int)
    ensures
        call_last_line(lines, i, j) matches Some(k) ==> j <= k < lines.len() && i <= k,
    decreases lines.len() - j,
{
    if i <= j < lines.len() {
        lemma_call_last_line(lines, i, j + 1);
    }
}

/// The calls whose first line starts with `function`, from line `i` on, each
/// with that line's number. Lines inside a call start none; a call that does
/// not close counts for nothing.
pub open spec fn calls(lines: Seq<Text>, function: Text, i: int) -> Seq<(int, Text)>
    decreases lines.len() - i,
{
    if i < 0 || i >= lines.len() {
        seq![]
    } else if function.is_prefix_of(trim_start(lines[i])) {
        proof {
            lemma_call_last_line(lines, i, i);
        }
        match call_last_line(lines, i, i) {
            Some(j) => seq![(i, call_text(lines, i, j))] + calls(lines, function, j + 1),
            None => seq![],
        }
    } else {
        calls(lines, function, i + 1)
    }
}

/// The texts of the calls.
pub open spec fn call_texts(calls: Seq<(int, Text)>) -> Seq<Text> {
    calls.map_values(|c: (int, Text)| c.1)
}

/// The calls whose first line starts with `function`, each with the number of
/// that line.
pub fn collect_bzl_calls_with_order(lines: &Vec<String>, function: &str) -> (r: Vec<(usize, String)>)
    ensures
        positions_as_int(r.deep_view()) == calls(lines.deep_view(), function@, 0),
        forall|i: int| 0 <= i < r@.len() ==> (#[trigger] r@[i]).0 < lines@.len(),
{
    let ghost model = lines.deep_view();
    let n: usize = lines.len();
    let mut out: Vec<(usize, String)> = Vec::new();
    let mut i: usize = 0;
    assert(positions_as_int(out.deep_view()) + calls(model, function@, 0) =~= calls(
        model,
        function@,
        0,
    ));
    while i < n
        invariant
            model == lines.deep_view(),
            n == lines@.len(),
            0 <= i <= n,
            positions_as_int(out.deep_view()) + calls(model, function@, i as int) =~= calls(
                model,
                function@,
                0,
            ),
            forall|k: int| 0 <= k < out@.len() ==> (#[trigger] out@[k]).0 < lines@.len(),
        decreases n - i,
    {
        assert(model[i as int] == lines@[i as int]@);
        if !starts_with(trim_start_of(lines[i].as_str()), function) {
            i += 1;
            continue ;
        }
        let stripped = strip_bzl_comment(lines[i].as_str());
        let mut text = trim_start_of(stripped.as_str()).to_owned();
        let mut balance = Balance::of_line(paren_delta(text.as_str()));
        let mut j: usize = i;
        while balance.opened > balance.closed && j + 1 < n
            invariant
                model == lines.deep_view(),
                n == lines@.len(),
                i <= j < n,
                text@ == call_text(model, i as int, j as int),
                balance.value() == call_balance(model, i as int, j as int),
                balance.bounded(j - i + 1),
                call_last_line(model, i as int, i as int) == call_last_line(
                    model,
                    i as int,
                    j as int,
                ),
            decreases n - j,
        {
            assert(model[j + 1] == lines@[j + 1]@);
            let line = strip_bzl_comment(lines[j + 1].as_str());
            text.push('\n');
            text.append(line.as_str());
            balance.include_line(paren_delta(line.as_str()), Ghost(j - i + 1));
            j += 1;
        }
        if balance.opened > balance.closed {
            assert(call_last_line(model, i as int, j + 1) is None);
            assert(positions_as_int(out.deep_view()) + seq![] =~= positions_as_int(out.deep_view()));
            return out;
        }
        let ghost before = positions_as_int(out.deep_view());
        let ghost item = (i as int, text@);
        out.push((i, text));
        proof {
            assert(positions_as_int(out.deep_view()) =~= before.push(item));
            let rest = calls(model, function@, j + 1);
            assert(before + (seq![item] + rest) =~= before.push(item) + rest);
        }
        i = j + 1;
    }
    out
}

/// The texts of the calls whose first line starts with `function`.
pub fn collect_bzl_calls(lines: &Vec<String>, function: &str) -> (r: Vec<String>)
    ensures
        r.deep_view() == call_texts(calls(lines.deep_view(), function@, 0)),
{
    let found = collect_bzl_calls_with_order(lines, function);
    let ghost model = calls(lines.deep_view(), function@, 0);
    let mut out: Vec<String> = Vec::new();
    let mut i: usize = 0;
    while i < found.len()
        invariant
            positions_as_int(found.deep_view()) == model,
            0 <= i <= found@.len(),
            out.deep_view() =~= call_texts(model).take(i as int),
        decreases found.len() - i,
    {
        let ghost before = out.deep_view();
        out.push(found[i].1.clone());
        proof {
            assert(positions_as_int(found.deep_view())[i as int] == model[i as int]);
            assert(found.deep_view()[i as int] == found@[i as int].deep_view());
            assert(out.deep_view() =~= before.push(call_texts(model)[i as int]));
        }
        i += 1;
    }
    assert(call_texts(model).take(i as int) =~= call_texts(model));
    out
}

/// The two sides of the assignment that a line at the top level starts.
pub open spec fn line_assignment(line: Text) -> Option<(Text, Text)> {
    let s = without_comment(line);
    if s.len() > 0 && is_whitespace(s[0]) {
        None
    } else {
        assignment(s)
    }
}

/// The brackets open after line `j` of an assignment that starts in line `i`.
pub open spec fn assignment_balance(lines: Seq<Text>, i: int, j: int) -> int
    decreases j - i,
{
    if j <= i {
        let value = (line_assignment(lines[i])->0).1;
        nest(value, 0, value.len() as int)
    } else {
        let line = without_comment(lines[j]);
        assignment_balance(lines, i, j - 1) + nest(line, 0, line.len() as int)
    }
}

/// The value on lines `i` to `j` of an assignment.
pub open spec fn assignment_text(lines: Seq<Text>, i: int, j: int) -> Text
    decreases j - i,
{
    if j <= i {
        trim((line_assignment(lines[i])->0).1)
    } else {
        let before = assignment_text(lines, i, j - 1);
        (if before.len() == 0 {
            before
        } else {
            before.push('\n')
        }) + without_comment(lines[j])
    }
}

/// The first line from `j` on after which no bracket of the assignment is open.
pub open spec fn assignment_last_line(lines: Seq<Text>, i: int, j: int) -> Option<int>
    decreases lines.len() - j,
{
    if j < i || j >= lines.len() {
        None
    } else if assignment_balance(lines, i, j) <= 0 {
        Some(j)
    } else {
        assignment_last_line(lines, i, j + 1)
    }
}

pub proof fn lemma_assignment_last_line(lines: Seq<Text>, i: int, j: int)
    ensures
        assignment_last_line(lines, i, j) matches Some(k) ==> j <= k < lines.len() && i <= k,
    decreases lines.len() - j,
{
    if i <= j < lines.len() {
        lemma_assignment_last_line(lines, i, j + 1);
    }
}

/// The assignments at the top level from line `i` on: name and value.
pub open spec fn assignments(lines: Seq<Text>, i: int) -> Seq<(Text, Text)>
    decreases lines.len() - i,
{
    if i < 0 || i >= lines.len() {
        seq![]
    } else {
        match line_assignment(lines[i]) {
            Some((name, _)) => {
                proof {
                    lemma_assignment_last_line(lines, i, i);
                }
                match assignment_last_line(lines, i, i) {
                    Some(j) => seq![(trim(name), assignment_text(lines, i, j))] + assignments(
                        lines,
                        j + 1,
                    ),
                    None => seq![],
                }
            },
            None => assignments(lines, i + 1),
        }
    }
}

/// The assignments at the top level: name and value.
pub fn bzl_top_level_assignments(lines: &Vec<String>) -> (r: Vec<(String, String)>)
    ensures
        r.deep_view() == assignments(lines.deep_view(), 0),
{
    let ghost model = lines.deep_view();
    let n: usize = lines.len();
    let mut out: Vec<(String, String)> = Vec::new();
    let mut i: usize = 0;
    assert(out.deep_view() + assignments(model, 0) =~= assignments(model, 0));
    while i < n
        invariant
            model == lines.deep_view(),
            n == lines@.len(),
            0 <= i <= n,
            out.deep_view() + assignments(model, i as int) =~= assignments(model, 0),
        decreases n - i,
    {
        assert(model[i as int] == lines@[i as int]@);
        let line = strip_bzl_comment(lines[i].as_str());
        let first = chars_of(line.as_str());
        if first.len() > 0 && char_is_whitespace(first[0]) {
            i += 1;
            continue ;
        }
        let (name, value) = match bzl_top_level_assignment(line.as_str()) {
            Some((name, value)) => (name, value),
            None => {
                i += 1;
                continue ;
            },
        };
        let name = trim_of(name).to_owned();
        let mut text = trim_of(value).to_owned();
        let mut balance = Balance::of_line(delimiter_delta(value));
        let mut j: usize = i;
        while balance.opened > balance.closed && j + 1 < n
            invariant
                model == lines.deep_view(),
                n == lines@.len(),
                i <= j < n,
                text@ == assignment_text(model, i as int, j as int),
                balance.value() == assignment_balance(model, i as int, j as int),
                balance.bounded(j - i + 1),
                assignment_last_line(model, i as int, i as int) == assignment_last_line(
                    model,
                    i as int,
                    j as int,
                ),
            decreases n - j,
        {
            assert(model[j + 1] == lines@[j + 1]@);
            let line = strip_bzl_comment(lines[j + 1].as_str());
            if !text.as_str().is_empty() {
                text.push('\n');
            }
            text.append(line.as_str());
            balance.include_line(delimiter_delta(line.as_str()), Ghost(j - i + 1));
            j += 1;
        }
        if balance.opened > balance.closed {
            assert(assignment_last_line(model, i as int, j + 1) is None);
            assert(out.deep_view() + seq![] =~= out.deep_view());
            return out;
        }
        let ghost before = out.deep_view();
        let ghost item = (name@, text@);
        out.push((name, text));
        proof {
            assert(out.deep_view() =~= before.push(item));
            let rest = assignments(model, j + 1);
            assert(before + (seq![item] + rest) =~= before.push(item) + rest);
        }
        i = j + 1;
    }
    out
}

/// A character that a module constant may hold.
pub open spec fn is_constant_char(c: char) -> bool {
    is_ascii_alphanumeric(c) || "_ \n\t\"'\\.,:/-+%=()[]{}"@.contains(c)
}

/// A value that a module constant may have: neither an extension nor a
/// repository rule, and plain characters only.
pub open spec fn constant_supported(value: Text) -> bool {
    &&& !"use_extension("@.is_prefix_of(trim_start(value))
    &&& !"use_repo_rule("@.is_prefix_of(trim_start(value))
    &&& forall|i: int| 0 <= i < value.len() ==> is_constant_char(#[trigger] value[i])
}

/// Whether a module constant may have this value.
pub fn bzl_module_constant_expression_is_supported(value: &str) -> (r: bool)
    ensures
        r == constant_supported(value@),
{
    let trimmed = trim_start_of(value);
    if starts_with(trimmed, "use_extension(") || starts_with(trimmed, "use_repo_rule(") {
        return false;
    }
    let v = chars_of(value);
    let mut i: usize = 0;
    while i < v.len()
        invariant
            v@ == value@,
            0 <= i <= v@.len(),
            forall|j: int| 0 <= j < i ==> is_constant_char(#[trigger] v@[j]),
        decreases v.len() - i,
    {
        if !char_is_ascii_alphanumeric(v[i]) && !contains_char(
            "_ \n\t\"'\\.,:/-+%=()[]{}",
            v[i],
        ) {
            assert(!is_constant_char(v@[i as int]));
            return false;
        }
        i += 1;
    }
    true
}

/// The constants among the assignments: identifiers with supported values.
pub open spec fn constants_of(items: Seq<(Text, Text)>) -> Seq<(Text, Text)>
    decreases items.len(),
{
    if items.len() == 0 {
        seq![]
    } else {
        let (name, value) = items.last();
        let before = constants_of(items.drop_last());
        if is_identifier(trim(name)) && constant_supported(trim(value)) {
            before.push((trim(name), trim(value)))
        } else {
            before
        }
    }
}

/// The constants that the lines of a module file define.
pub fn bzlmod_module_constants_from_lines(lines: &Vec<String>) -> (r: Vec<(String, String)>)
    ensures
        r.deep_view() == constants_of(assignments(lines.deep_view(), 0)),
{
    let items = bzl_top_level_assignments(lines);
    let mut out: Vec<(String, String)> = Vec::new();
    let mut i: usize = 0;
    while i < items.len()
        invariant
            items.deep_view() == assignments(lines.deep_view(), 0),
            0 <= i <= items@.len(),
            out.deep_view() =~= constants_of(items.deep_view().take(i as int)),
        decreases items.len() - i,
    {
        let ghost before = out.deep_view();
        proof {
            let t = items.deep_view().take(i + 1);
            assert(t.drop_last() =~= items.deep_view().take(i as int));
            assert(t.last() == items@[i as int].deep_view());
        }
        let name = trim_of(items[i].0.as_str());
        let value = trim_of(items[i].1.as_str());
        if is_bzl_identifier(name) && bzl_module_constant_expression_is_supported(value) {
            let ghost item = (name@, value@);
            out.push((name.to_owned(), value.to_owned()));
            assert(out.deep_view() =~= before.push(item));
        }
        i += 1;
    }
    assert(items.deep_view().take(i as int) =~= items.deep_view());
    out
}

/// The brackets open after line `j` of a block that starts in line `i`.
pub open spec fn block_balance(lines: Seq<Text>, i: int, j: int) -> int
    decreases j - i,
{
    let line = without_comment(lines[j]);
    let own = nest(line, 0, line.len() as int);
    if j <= i {
        own
    } else {
        block_balance(lines, i, j - 1) + own
    }
}

/// The line after a block that starts in line `i`: after the first line from
/// `j` on that leaves no bracket open, or the end.
pub open spec fn block_end(lines: Seq<Text>, i: int, j: int) -> int
    decreases lines.len() - j,
{
    if j < i || j >= lines.len() {
        lines.len() as int
    } else if block_balance(lines, i, j) <= 0 {
        j + 1
    } else {
        block_end(lines, i, j + 1)
    }
}

pub proof fn lemma_block_end(lines: Seq<Text>, i: int, j: int)
    requires
        0 <= i <= j < lines.len(),
    ensures
        j < block_end(lines, i, j) <= lines.len(),
    decreases lines.len() - j,
{
    if j + 1 < lines.len() {
        lemma_block_end(lines, i, j + 1);
    } else {
        assert(block_end(lines, i, j + 1) == lines.len());
    }
}

/// The lines `i` to before `e` without their comments.
pub open spec fn block_lines(lines: Seq<Text>, i: int, e: int) -> Seq<Text> {
    Seq::new((e - i) as nat, |k: int| without_comment(lines[i + k]))
}

/// The block that starts in line `i`, without comments, and the line after it.
pub fn block_from(lines: &Vec<String>, i: usize) -> (r: (Vec<String>, usize))
    requires
        i < lines@.len(),
    ensures
        r.1 == block_end(lines.deep_view(), i as int, i as int),
        i < r.1 <= lines@.len(),
        r.0.deep_view() == block_lines(lines.deep_view(), i as int, r.1 as int),
{
    let ghost model = lines.deep_view();
    let n: usize = lines.len();
    assert(model[i as int] == lines@[i as int]@);
    let first = strip_bzl_comment(lines[i].as_str());
    let mut balance = Balance::of_line(delimiter_delta(first.as_str()));
    let mut block: Vec<String> = Vec::new();
    block.push(first);
    let mut j: usize = i;
    assert(block.deep_view() =~= block_lines(model, i as int, j + 1));
    while balance.opened > balance.closed && j + 1 < n
        invariant
            model == lines.deep_view(),
            n == lines@.len(),
            i <= j < n,
            block.deep_view() == block_lines(model, i as int, j + 1),
            balance.value() == block_balance(model, i as int, j as int),
            balance.bounded(j - i + 1),
            block_end(model, i as int, i as int) == block_end(model, i as int, j as int),
        decreases n - j,
    {
        assert(model[j + 1] == lines@[j + 1]@);
        let ghost before = block.deep_view();
        let line = strip_bzl_comment(lines[j + 1].as_str());
        balance.include_line(delimiter_delta(line.as_str()), Ghost(j - i + 1));
        block.push(line);
        assert(block.deep_view() =~= before.push(without_comment(model[j + 1])));
        assert(block.deep_view() =~= block_lines(model, i as int, j + 2));
        j += 1;
    }
    proof {
        if balance.value() > 0 {
            assert(block_end(model, i as int, j + 1) == n);
        }
    }
    (block, j + 1)
}

proof fn lemma_paren_sum(s: Text)
    ensures
        paren_sum(s) == s.filter(|c: char| c == '(').len() - s.filter(|c: char| c == ')').len(),
    decreases s.len(),
{
    reveal(Seq::filter);
    if s.len() > 0 {
        lemma_paren_sum(s.drop_last());
    }
}

/// A call on one line, with as many parentheses closed as opened, is a call of its own,
/// before those of the lines below; a line that does not start with the function is no
/// call.
pub proof fn law_calls_in_turn(lines: Seq<Text>, function: Text, i: int)
    requires
        0 <= i < lines.len(),
        function.len() > 0,
        lines[i].len() > 0,
        !is_whitespace(lines[i][0]),
        forall|j: int| 0 <= j < lines[i].len() ==> #[trigger] lines[i][j] != '#',
    ensures
        function.is_prefix_of(lines[i]) && lines[i].filter(|c: char| c == '(').len()
            == lines[i].filter(|c: char| c == ')').len() ==> calls(lines, function, i) == seq![
            (i, lines[i]),
        ] + calls(lines, function, i + 1),
        !function.is_prefix_of(lines[i]) ==> calls(lines, function, i) == calls(
            lines,
            function,
            i + 1,
        ),
{
    law_no_comment(lines[i]);
    lemma_paren_sum(lines[i]);
    assert(trim_start(lines[i]) == lines[i]);
    assert(bare_line(lines[i]) == lines[i]);
    assert(call_balance(lines, i, i) == paren_sum(lines[i]));
}

/// A call that closes only on a line below goes on to that line: its text is that of all
/// its lines, and no line of it starts another call.
pub proof fn law_call_goes_on(lines: Seq<Text>, function: Text, i: int)
    requires
        0 <= i,
        i + 1 < lines.len(),
        function.len() > 0,
        lines[i].len() > 0,
        !is_whitespace(lines[i][0]),
        function.is_prefix_of(lines[i]),
        forall|j: int| 0 <= j < lines[i].len() ==> #[trigger] lines[i][j] != '#',
        forall|j: int| 0 <= j < lines[i + 1].len() ==> #[trigger] lines[i + 1][j] != '#',
        lines[i].filter(|c: char| c == '(').len() > lines[i].filter(|c: char| c == ')').len(),
        lines[i].filter(|c: char| c == '(').len() + lines[i + 1].filter(|c: char| c == '(').len()
            == lines[i].filter(|c: char| c == ')').len() + lines[i + 1].filter(
            |c: char| c == ')',
        ).len(),
    ensures
        calls(lines, function, i) == seq![(i, lines[i] + seq!['\n'] + lines[i + 1])] + calls(
            lines,
            function,
            i + 2,
        ),
{
    law_no_comment(lines[i]);
    law_no_comment(lines[i + 1]);
    lemma_paren_sum(lines[i]);
    lemma_paren_sum(lines[i + 1]);
    assert(trim_start(lines[i]) == lines[i]);
    assert(bare_line(lines[i]) == lines[i]);
    assert(call_balance(lines, i, i) == paren_sum(lines[i]));
    assert(call_balance(lines, i, i + 1) == paren_sum(lines[i]) + paren_sum(lines[i + 1]));
    assert(call_text(lines, i, i) == lines[i]);
    assert(call_text(lines, i, i + 1) =~= lines[i] + seq!['\n'] + lines[i + 1]);
    reveal_with_fuel(call_last_line, 3);
}

/// The constants are the assignments to identifiers of values that are neither extensions
/// nor repository rules; of an assignment that is one, name and value are kept.
pub proof fn law_constants(items: Seq<(Text, Text)>, name: Text, value: Text)
    ensures
        is_identifier(trim(name)) && constant_supported(trim(value)) ==> constants_of(
            items.push((name, value)),
        ) == constants_of(items).push((trim(name), trim(value))),
        !(is_identifier(trim(name)) && constant_supported(trim(value))) ==> constants_of(
            items.push((name, value)),
        ) == constants_of(items),
        "use_extension("@.is_prefix_of(value) || "use_repo_rule("@.is_prefix_of(value)
            ==> !constant_supported(value),
{
    assert(items.push((name, value)).drop_last() =~= items);
    reveal_strlit("use_extension(");
    reveal_strlit("use_repo_rule(");
    if "use_extension("@.is_prefix_of(value) {
        assert(value.subrange(0, "use_extension("@.len() as int)[0] == value[0]);
        assert(trim_start(value) == value);
    }
    if "use_repo_rule("@.is_prefix_of(value) {
        assert(value.subrange(0, "use_repo_rule("@.len() as int)[0] == value[0]);
        assert(trim_start(value) == value);
    }
}

} // verus!
