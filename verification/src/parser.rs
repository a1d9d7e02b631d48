//! The line normalizer and the instruction classifier.

use vstd::prelude::*;
use vstd::string::*;
use crate::symbols::{predefined, predefined_address};
use crate::text::{
    chars_of, decimal_text, field_text, is_space, leading, lemma_leading, lemma_leading_all, lemma_strip,
    push_decimal, string_of, strip, strip_bounds, CharClass,
};

verus! {

/// The three kinds of instruction.
#[derive(Clone, Copy, Debug, PartialEq, Eq, Structural)]
pub enum Instruction {
    /// An address load, `@symbol`.
    A,
    /// A computation, `dest=comp;jump`.
    C,
    /// A label definition, `(symbol)`.
    L,
}

/// The position of the first `c` in `s`, or the length of `s` if it has none.
pub open spec fn first_index(s: Seq<char>, c: char) -> nat
    decreases s.len(),
{
    if s.len() == 0 || s[0] == c {
        0
    } else {
        1 + first_index(s.skip(1), c)
    }
}

/// The position at which the first comment marker `//` of `line` starts, or
/// the length of `line` if it has none.
pub open spec fn comment_start(line: Seq<char>) -> nat
    decreases line.len(),
{
    if line.len() < 2 {
        line.len()
    } else if line[0] == '/' && line[1] == '/' {
        0
    } else {
        1 + comment_start(line.skip(1))
    }
}

/// What is left of a source line without its comment and without the white
/// space around the rest.
pub open spec fn clean_line(line: Seq<char>) -> Seq<char> {
    strip(line.take(comment_start(line) as int), CharClass::Space)
}

/// The lines of `text`, split at each line feed. A carriage return before
/// the line feed stays on the line: it is white space.
pub open spec fn raw_lines(text: Seq<char>) -> Seq<Seq<char>>
    decreases text.len(),
{
    let n = first_index(text, '\n');
    if text.len() == 0 {
        Seq::empty()
    } else if n >= text.len() {
        seq![text]
    } else {
        seq![text.take(n as int)] + raw_lines(text.skip(n as int + 1))
    }
}

/// The instruction lines of a source text, in their order: each line without
/// its comment and surrounding white space, and only those that are not
/// empty then.
pub open spec fn normalized_lines(text: Seq<char>) -> Seq<Seq<char>> {
    raw_lines(text).map_values(|line: Seq<char>| clean_line(line)).filter(
        |line: Seq<char>| line.len() > 0,
    )
}

/// The kind of an instruction line, told by its first and last characters.
pub open spec fn instruction_kind(line: Seq<char>) -> Instruction {
    if line.len() > 0 && line[0] == '@' {
        Instruction::A
    } else if line.len() > 0 && line[0] == '(' && line.last() == ')' {
        Instruction::L
    } else {
        Instruction::C
    }
}

/// The symbol of an instruction line. Of an address load it is the text
/// behind the `@`, or, where that text is a predefined name, its address in
/// decimal digits. Of a label definition it is the line without the brackets
/// at its ends. A computation has none.
pub open spec fn symbol_text(line: Seq<char>) -> Option<Seq<char>> {
    match instruction_kind(line) {
        Instruction::A => match predefined_address(line.skip(1)) {
            Some(address) => Some(decimal_text(address as nat)),
            None => Some(line.skip(1)),
        },
        Instruction::L => Some(strip(line, CharClass::Paren)),
        Instruction::C => None,
    }
}

/// The destination field of a computation: the text before its first `=`.
pub open spec fn dest_text(line: Seq<char>) -> Option<Seq<char>> {
    let eq = first_index(line, '=');
    if instruction_kind(line) == Instruction::C && eq < line.len() {
        Some(line.take(eq as int))
    } else {
        None
    }
}

/// The computation field of a computation: the text behind its first `=`,
/// or from its start if it has none, up to its first `;`, or to its end if
/// it has none. A line whose first `;` stands before its first `=` has no
/// such field.
pub open spec fn comp_text(line: Seq<char>) -> Option<Seq<char>> {
    let eq = first_index(line, '=');
    let start: nat = if eq < line.len() {
        eq + 1
    } else {
        0
    };
    let end = first_index(line, ';');
    if instruction_kind(line) == Instruction::C && start <= end {
        Some(line.subrange(start as int, end as int))
    } else {
        None
    }
}

/// The jump field of a computation: the text behind its first `;`.
pub open spec fn jump_text(line: Seq<char>) -> Option<Seq<char>> {
    let semi = first_index(line, ';');
    if instruction_kind(line) == Instruction::C && semi < line.len() {
        Some(line.skip(semi as int + 1))
    } else {
        None
    }
}

/// The first `c` is found within the string, and nothing before it is `c`.
pub proof fn lemma_first_index(s: Seq<char>, c: char)
    ensures
        0 <= first_index(s, c) <= s.len(),
        first_index(s, c) < s.len() ==> s[first_index(s, c) as int] == c,
        forall|i: int| 0 <= i < first_index(s, c) ==> s[i] != c,
    decreases s.len(),
{
    if s.len() == 0 || s[0] == c {
    } else {
        lemma_first_index(s.skip(1), c);
        assert forall|i: int| 0 <= i < first_index(s, c) implies s[i] != c by {
            if i > 0 {
                assert(s.skip(1)[i - 1] == s[i]);
            }
        }
    }
}

/// Finds the first `c` in `v[lo..hi]`; gives `hi` if there is none.
pub(crate) fn find_char(v: &Vec<char>, lo: usize, hi: usize, c: char) -> (r: usize)
    requires
        lo <= hi <= v.len(),
    ensures
        lo <= r <= hi,
        r - lo == first_index(v@.subrange(lo as int, hi as int), c),
{
    let mut i: usize = lo;
    while i < hi && v[i] != c
        invariant
            lo <= i <= hi <= v.len(),
            first_index(v@.subrange(lo as int, hi as int), c) == (i - lo) + first_index(
                v@.subrange(i as int, hi as int),
                c,
            ),
        decreases hi - i,
    {
        assert(v@.subrange(i as int, hi as int).skip(1) =~= v@.subrange(i + 1, hi as int));
        i += 1;
    }
    i
}

/// Finds where the first comment marker in `v[lo..hi]` starts; gives `hi` if
/// there is none.
pub(crate) fn find_comment(v: &Vec<char>, lo: usize, hi: usize) -> (r: usize)
    requires
        lo <= hi <= v.len(),
    ensures
        lo <= r <= hi,
        r - lo == comment_start(v@.subrange(lo as int, hi as int)),
{
    let mut i: usize = lo;
    while hi - i >= 2 && !(v[i] == '/' && v[i + 1] == '/')
        invariant
            lo <= i <= hi <= v.len(),
            comment_start(v@.subrange(lo as int, hi as int)) == (i - lo) + comment_start(
                v@.subrange(i as int, hi as int),
            ),
        decreases hi - i,
    {
        assert(v@.subrange(i as int, hi as int).skip(1) =~= v@.subrange(i + 1, hi as int));
        i += 1;
    }
    if hi - i >= 2 {
        i
    } else {
        hi
    }
}

/// The normalized lines of a text are those of its first line, then those of
/// the text behind the first line feed.
pub proof fn lemma_normalized_lines_step(text: Seq<char>)
    requires
        text.len() > 0,
    ensures
        ({
            let n = first_index(text, '\n') as int;
            let head = clean_line(text.take(n));
            let rest = if n < text.len() {
                normalized_lines(text.skip(n + 1))
            } else {
                Seq::empty()
            };
            &&& n <= text.len()
            &&& normalized_lines(text) == if head.len() > 0 {
                seq![head] + rest
            } else {
                rest
            }
        }),
{
    lemma_first_index(text, '\n');
    let n = first_index(text, '\n') as int;
    let clean = |line: Seq<char>| clean_line(line);
    let kept = |line: Seq<char>| line.len() > 0;
    let first = seq![text.take(n)];
    let others = if n < text.len() {
        raw_lines(text.skip(n + 1))
    } else {
        Seq::empty()
    };
    assert(text.take(text.len() as int) =~= text);
    assert(raw_lines(text) =~= first + others);
    assert((first + others).map_values(clean) =~= first.map_values(clean) + others.map_values(
        clean,
    ));
    Seq::filter_distributes_over_add(first.map_values(clean), others.map_values(clean), kept);
    let head = clean_line(text.take(n));
    assert(first.map_values(clean) =~= seq![head]);
    assert(seq![head].filter(kept) =~= if head.len() > 0 {
        seq![head]
    } else {
        Seq::empty()
    }) by {
        reveal_with_fuel(Seq::filter, 2);
        assert(seq![head].drop_last() =~= Seq::<Seq<char>>::empty());
    }
}

/// Tells the kind of an instruction line.
pub fn kind_of(line: &Vec<char>) -> (r: Instruction)
    ensures
        r == instruction_kind(line@),
{
    let n: usize = line.len();
    if n > 0 && line[0] == '@' {
        Instruction::A
    } else if n > 0 && line[0] == '(' && line[n - 1] == ')' {
        Instruction::L
    } else {
        Instruction::C
    }
}

/// Whether a comment marker starts at position `i` of `line`.
pub open spec fn marker_at(line: Seq<char>, i: int) -> bool {
    0 <= i && i + 1 < line.len() && line[i] == '/' && line[i + 1] == '/'
}

/// The first comment marker is found within the line, and no marker starts
/// before it.
pub proof fn lemma_comment_start(line: Seq<char>)
    ensures
        comment_start(line) <= line.len(),
        comment_start(line) < line.len() ==> marker_at(line, comment_start(line) as int),
        forall|i: int| 0 <= i < comment_start(line) ==> !marker_at(line, i),
    decreases line.len(),
{
    if line.len() >= 2 && !(line[0] == '/' && line[1] == '/') {
        let rest = line.skip(1);
        lemma_comment_start(rest);
        assert forall|i: int| 0 <= i < comment_start(line) implies !marker_at(line, i) by {
            if i > 0 {
                assert(marker_at(rest, i - 1) == marker_at(line, i));
            }
        }
        if comment_start(line) < line.len() {
            assert(marker_at(rest, comment_start(rest) as int));
        }
    }
}

/// Whether a source line holds no instruction: it is white space up to its
/// end, or up to a comment marker.
pub open spec fn is_blank_or_comment(line: Seq<char>) -> bool {
    let k = leading(line, CharClass::Space) as int;
    k == line.len() || marker_at(line, k)
}

/// A line that is blank or only a comment has nothing left when cleaned.
pub proof fn lemma_blank_or_comment_is_dropped(line: Seq<char>)
    requires
        is_blank_or_comment(line),
    ensures
        clean_line(line).len() == 0,
{
    let space = CharClass::Space;
    let k = leading(line, space) as int;
    lemma_leading(line, space);
    lemma_comment_start(line);
    let cut = comment_start(line) as int;
    assert(cut <= k) by {
        if k < line.len() && cut > k {
            assert(!marker_at(line, k));
        }
    }
    let kept = line.take(cut);
    assert forall|i: int| 0 <= i < kept.len() implies space.holds(#[trigger] kept[i]) by {
        assert(kept[i] == line[i]);
    }
    lemma_leading_all(kept, space);
    lemma_strip(kept, space);
}

/// A text in which every line is blank or only a comment has no instruction
/// lines.
pub proof fn lemma_comments_only(text: Seq<char>)
    requires
        forall|i: int|
            0 <= i < raw_lines(text).len() ==> is_blank_or_comment(#[trigger] raw_lines(text)[i]),
    ensures
        normalized_lines(text) == Seq::<Seq<char>>::empty(),
{
    let cleaned = raw_lines(text).map_values(|line: Seq<char>| clean_line(line));
    let kept = |line: Seq<char>| line.len() > 0;
    assert forall|i: int| 0 <= i < cleaned.len() implies !kept(#[trigger] cleaned[i]) by {
        lemma_blank_or_comment_is_dropped(raw_lines(text)[i]);
    }
    cleaned.lemma_all_neg_filter_empty(kept);
    assert(cleaned.filter(kept) =~= Seq::<Seq<char>>::empty());
}

/// No line of a text holds a line feed.
pub proof fn lemma_raw_lines_hold_no_line_feed(text: Seq<char>, i: int)
    requires
        0 <= i < raw_lines(text).len(),
    ensures
        forall|k: int| 0 <= k < raw_lines(text)[i].len() ==> raw_lines(text)[i][k] != '\n',
    decreases text.len(),
{
    lemma_first_index(text, '\n');
    let n = first_index(text, '\n') as int;
    if n < text.len() && i > 0 {
        lemma_raw_lines_hold_no_line_feed(text.skip(n + 1), i - 1);
    }
}

/// Every instruction line of a text is clean: it is not empty, neither
/// starts nor ends with white space, and holds no comment marker and no
/// line feed.
pub proof fn lemma_normalized_lines_are_clean(text: Seq<char>, i: int)
    requires
        0 <= i < normalized_lines(text).len(),
    ensures
        ({
            let line = normalized_lines(text)[i];
            &&& line.len() > 0
            &&& !is_space(line[0])
            &&& !is_space(line.last())
            &&& comment_start(line) == line.len()
            &&& first_index(line, '\n') == line.len()
        }),
{
    let space = CharClass::Space;
    let cleaned = raw_lines(text).map_values(|line: Seq<char>| clean_line(line));
    let kept = |line: Seq<char>| line.len() > 0;
    let line = cleaned.filter(kept)[i];
    cleaned.lemma_filter_pred(kept, i);
    assert(cleaned.filter(kept).contains(line));
    cleaned.lemma_filter_contains_rev(kept, line);
    let j = choose|j: int| 0 <= j < cleaned.len() && cleaned[j] == line;
    let raw = raw_lines(text)[j];
    lemma_raw_lines_hold_no_line_feed(text, j);
    lemma_comment_start(raw);
    let code = raw.take(comment_start(raw) as int);
    lemma_strip(code, space);
    let from = leading(code, space) as int;
    assert(line == code.subrange(from, from + line.len()));
    lemma_comment_start(line);
    if comment_start(line) < line.len() {
        let m = comment_start(line) as int;
        assert(marker_at(raw, from + m));
    }
    lemma_first_index(line, '\n');
    if first_index(line, '\n') < line.len() {
        let m = first_index(line, '\n') as int;
        assert(raw[from + m] == '\n');
    }
}

/// The character sequences of a vector of strings.
pub open spec fn texts(lines: Seq<String>) -> Seq<Seq<char>> {
    lines.map_values(|line: String| line@)
}

/// A source program as a sequence of instruction lines, with a cursor on
/// the current one.
pub struct Parser {
    /// The instruction lines, in their order.
    pub lines: Vec<String>,
    /// The position of the current instruction in `lines`.
    pub current_instruction: usize,
}

impl Parser {
    /// The line under the cursor, if the cursor is on a line.
    pub open spec fn current_line(&self) -> Option<Seq<char>> {
        if self.current_instruction < self.lines.len() {
            Some(self.lines[self.current_instruction as int]@)
        } else {
            None
        }
    }

    /// Reads a source text: keeps its instruction lines, without comments and
    /// surrounding white space, and puts the cursor on the first of them.
    pub fn create(contents: String) -> (parser: Parser)
        ensures
            texts(parser.lines@) == normalized_lines(contents@),
            parser.current_instruction == 0,
    {
        let source = chars_of(contents.as_str());
        let n: usize = source.len();
        let mut lines: Vec<String> = Vec::new();
        let mut pos: usize = 0;
        assert(source@.skip(0) =~= source@);
        assert(texts(lines@) + normalized_lines(source@) =~= normalized_lines(source@));
        while pos < n
            invariant
                pos <= n == source.len(),
                normalized_lines(source@) == texts(lines@) + normalized_lines(
                    source@.skip(pos as int),
                ),
            decreases n - pos,
        {
            let end: usize = find_char(&source, pos, n, '\n');
            let cut: usize = find_comment(&source, pos, end);
            let (from, to) = strip_bounds(&source, pos, cut, CharClass::Space);
            let ghost rest = source@.skip(pos as int);
            let ghost before = texts(lines@);
            proof {
                lemma_normalized_lines_step(rest);
                assert(rest =~= source@.subrange(pos as int, n as int));
                assert(rest.take(end - pos) =~= source@.subrange(pos as int, end as int));
                assert(source@.subrange(pos as int, end as int).take(cut - pos)
                    =~= source@.subrange(pos as int, cut as int));
                if end < n {
                    assert(rest.skip(end - pos + 1) =~= source@.skip(end + 1));
                }
            }
            if from < to {
                let line = string_of(&source, from, to);
                lines.push(line);
                assert(texts(lines@) =~= before.push(line@));
                assert(before.push(line@) =~= before + seq![line@]);
            }
            if end < n {
                pos = end + 1;
            } else {
                pos = n;
            }
        }
        proof {
            assert(source@.skip(n as int) =~= Seq::<char>::empty());
            assert(normalized_lines(Seq::<char>::empty()) =~= Seq::<Seq<char>>::empty()) by {
                reveal_with_fuel(Seq::filter, 1);
            }
        }
        Parser { lines, current_instruction: 0 }
    }

    /// Whether there is a line behind the current one.
    pub fn has_more_lines(&self) -> (r: bool)
        ensures
            r == (self.current_instruction + 1 < self.lines.len()),
    {
        self.current_instruction < self.lines.len() && self.lines.len() - self.current_instruction
            > 1
    }

    /// Moves the cursor to the next line, also where that is behind the last
    /// line: there is no instruction under the cursor then.
    pub fn advance(&mut self)
        requires
            old(self).current_instruction < usize::MAX,
        ensures
            final(self).lines == old(self).lines,
            final(self).current_instruction == old(self).current_instruction + 1,
    {
        self.current_instruction += 1;
    }

    /// The characters of the line under the cursor, if the cursor is on a line.
    fn current_chars(&self) -> (r: Option<Vec<char>>)
        ensures
            match self.current_line() {
                Some(line) => r is Some && r->0@ == line,
                None => r is None,
            },
    {
        if self.current_instruction < self.lines.len() {
            Some(chars_of(self.lines[self.current_instruction].as_str()))
        } else {
            None
        }
    }

    /// The kind of the current instruction; `None` if the cursor is behind
    /// the last line.
    pub fn instruction_type(&self) -> (r: Option<Instruction>)
        ensures
            r == match self.current_line() {
                Some(line) => Some(instruction_kind(line)),
                None => None,
            },
    {
        match self.current_chars() {
            Some(line) => Some(kind_of(&line)),
            None => None,
        }
    }

    /// The symbol of the current instruction; `None` if it is a computation
    /// or the cursor is behind the last line.
    pub fn symbol(&self) -> (r: Option<String>)
        ensures
            field_text(r) == match self.current_line() {
                Some(line) => symbol_text(line),
                None => None,
            },
    {
        match self.current_chars() {
            Some(line) => {
                let mut line = line;
                match kind_of(&line) {
                    Instruction::A => {
                        let name = line.split_off(1);
                        assert(name@ =~= self.current_line()->0.skip(1));
                        match predefined(&name) {
                            Some(address) => {
                                let mut digits = String::new();
                                push_decimal(&mut digits, address as u32);
                                assert(digits@ =~= decimal_text(address as nat));
                                Some(digits)
                            },
                            None => Some(string_of(&name, 0, name.len())),
                        }
                    },
                    Instruction::L => {
                        let (from, to) = strip_bounds(&line, 0, line.len(), CharClass::Paren);
                        assert(line@.subrange(0, line.len() as int) =~= line@);
                        Some(string_of(&line, from, to))
                    },
                    Instruction::C => None,
                }
            },
            None => None,
        }
    }

    /// The destination field of the current instruction; `None` if it has
    /// none, is no computation, or the cursor is behind the last line.
    pub fn dest(&self) -> (r: Option<String>)
        ensures
            field_text(r) == match self.current_line() {
                Some(line) => dest_text(line),
                None => None,
            },
    {
        match self.current_chars() {
            Some(line) => {
                let n: usize = line.len();
                assert(line@.subrange(0, n as int) =~= line@);
                match kind_of(&line) {
                    Instruction::C => {
                        let eq: usize = find_char(&line, 0, n, '=');
                        if eq < n {
                            Some(string_of(&line, 0, eq))
                        } else {
                            None
                        }
                    },
                    _ => None,
                }
            },
            None => None,
        }
    }

    /// The computation field of the current instruction; `None` if it has
    /// none, is no computation, or the cursor is behind the last line.
    pub fn comp(&self) -> (r: Option<String>)
        ensures
            field_text(r) == match self.current_line() {
                Some(line) => comp_text(line),
                None => None,
            },
    {
        match self.current_chars() {
            Some(line) => {
                let n: usize = line.len();
                assert(line@.subrange(0, n as int) =~= line@);
                match kind_of(&line) {
                    Instruction::C => {
                        let eq: usize = find_char(&line, 0, n, '=');
                        let start: usize = if eq < n {
                            eq + 1
                        } else {
                            0
                        };
                        let end: usize = find_char(&line, 0, n, ';');
                        if start <= end {
                            Some(string_of(&line, start, end))
                        } else {
                            None
                        }
                    },
                    _ => None,
                }
            },
            None => None,
        }
    }

    /// The jump field of the current instruction; `None` if it has none, is
    /// no computation, or the cursor is behind the last line.
    pub fn jump(&self) -> (r: Option<String>)
        ensures
            field_text(r) == match self.current_line() {
                Some(line) => jump_text(line),
                None => None,
            },
    {
        match self.current_chars() {
            Some(line) => {
                let n: usize = line.len();
                assert(line@.subrange(0, n as int) =~= line@);
                match kind_of(&line) {
                    Instruction::C => {
                        let semi: usize = find_char(&line, 0, n, ';');
                        if semi < n {
                            Some(string_of(&line, semi + 1, n))
                        } else {
                            None
                        }
                    },
                    _ => None,
                }
            },
            None => None,
        }
    }
}

} // verus!
