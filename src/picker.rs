//! The bridge to the external picker: the command line that runs it, the
//! candidate lines it is fed, and the reading of the line it answers with.

use vstd::prelude::*;
use crate::config::Config;
use crate::mark::{MarkShort, texts};
use crate::store::{Store, StoreModel};
use crate::text::{is_white, decimal_of, decimal_string, integer_literal, parse_i64, char_is_white};

verus! {

/// The words of a command line under POSIX shell quoting rules; `None` when
/// its quoting is invalid.
pub uninterp spec fn shell_words(s: Seq<char>) -> Option<Seq<Seq<char>>>;

/// Relies on `shlex::split`: splits `s` into words by shell quoting rules,
/// `None` on invalid quoting; a string without characters has no words.
#[verifier::external_body]
pub(crate) fn split_words(s: &str) -> (r: Option<Vec<String>>)
    ensures
        r is Some <==> shell_words(s@) is Some,
        r is Some ==> texts(r->0@) == shell_words(s@)->0,
        s@.len() == 0 ==> r is Some && r->0@.len() == 0,
{
    shlex::split(s)
}

/// What the picker is asked to choose among.
#[derive(Debug, Clone, Copy, PartialEq, Eq, Structural)]
pub enum SearchKind {
    Marks,
    Tags,
}

/// Why the picker could not be run or its answer not be read.
#[derive(Debug, Clone, Copy, PartialEq, Eq, Structural)]
pub enum PickerError {
    /// A command line or argument string has invalid quoting.
    InvalidQuoting,
    /// The picker's command line names no program.
    EmptyCommand,
    /// The answer does not start with a mark id.
    MalformedSelection,
}

/// The program to run as the picker, and its arguments.
pub struct PickerCommand {
    pub program: String,
    pub args: Vec<String>,
}

/// The picker's program and arguments, from the words of its command line and
/// of the arguments for the kind of search.
pub open spec fn invocation_of(
    command: Option<Seq<Seq<char>>>,
    context: Option<Seq<Seq<char>>>,
) -> Result<(Seq<char>, Seq<Seq<char>>), PickerError> {
    match (command, context) {
        (Some(c), Some(x)) => if c.len() == 0 {
            Err(PickerError::EmptyCommand)
        } else {
            Ok((c[0], c.subrange(1, c.len() as int) + x))
        },
        _ => Err(PickerError::InvalidQuoting),
    }
}

pub open spec fn command_view(r: Result<PickerCommand, PickerError>) -> Result<
    (Seq<char>, Seq<Seq<char>>),
    PickerError,
> {
    match r {
        Ok(c) => Ok((c.program@, texts(c.args@))),
        Err(e) => Err(e),
    }
}

pub open spec fn words_view(w: Option<Vec<String>>) -> Option<Seq<Seq<char>>> {
    match w {
        Some(v) => Some(texts(v@)),
        None => None,
    }
}

/// Builds the picker's command from the words of its command line and the
/// words of the search arguments (`None` where the quoting was invalid).
pub fn build_invocation(command: Option<Vec<String>>, context: Option<Vec<String>>) -> (r: Result<
    PickerCommand,
    PickerError,
>)
    ensures
        command_view(r) == invocation_of(words_view(command), words_view(context)),
{
    match (command, context) {
        (Some(c), Some(x)) => {
            if c.len() == 0 {
                return Err(PickerError::EmptyCommand);
            }
            let program = c[0].clone();
            let mut args: Vec<String> = Vec::new();
            let mut i: usize = 1;
            assert(texts(args@) =~= texts(c@).subrange(1, 1));
            while i < c.len()
                invariant
                    1 <= i <= c@.len(),
                    texts(args@) == texts(c@).subrange(1, i as int),
                decreases c@.len() - i,
            {
                let ghost before = args@;
                args.push(c[i].clone());
                assert(texts(args@) =~= texts(before).push(c@[i as int]@));
                assert(texts(c@).subrange(1, i + 1) =~= texts(c@).subrange(1, i as int).push(
                    c@[i as int]@,
                ));
                i = i + 1;
            }
            let mut j: usize = 0;
            let ghost head = texts(args@);
            assert(head + texts(x@).subrange(0, 0) =~= head);
            while j < x.len()
                invariant
                    j <= x@.len(),
                    texts(args@) == head + texts(x@).subrange(0, j as int),
                decreases x@.len() - j,
            {
                let ghost before = args@;
                args.push(x[j].clone());
                assert(texts(args@) =~= texts(before).push(x@[j as int]@));
                assert(head + texts(x@).subrange(0, j + 1) =~= (head + texts(x@).subrange(
                    0,
                    j as int,
                )).push(x@[j as int]@));
                j = j + 1;
            }
            assert(texts(x@).subrange(0, j as int) =~= texts(x@));
            Ok(PickerCommand { program, args })
        },
        _ => Err(PickerError::InvalidQuoting),
    }
}

/// The picker's command for a kind of search: the words of the configured
/// command line, then those of the search's arguments.
pub fn picker_command(config: &Config, kind: SearchKind) -> (r: Result<PickerCommand, PickerError>)
    ensures
        command_view(r) == invocation_of(
            shell_words(config.dmenu_command@),
            shell_words(
                match kind {
                    SearchKind::Marks => config.dmenu_mark_search_args@,
                    SearchKind::Tags => config.dmenu_tag_search_args@,
                },
            ),
        ),
{
    let command = split_words(config.dmenu_command.as_str());
    let context = match kind {
        SearchKind::Marks => split_words(config.dmenu_mark_search_args.as_str()),
        SearchKind::Tags => split_words(config.dmenu_tag_search_args.as_str()),
    };
    build_invocation(command, context)
}

/// Each text preceded by a tab.
pub open spec fn tab_prefixed(ts: Seq<Seq<char>>) -> Seq<char>
    decreases ts.len(),
{
    if ts.len() == 0 {
        Seq::empty()
    } else {
        tab_prefixed(ts.drop_last()) + seq!['\t'] + ts.last()
    }
}

/// The candidate line of a mark: its id, its name, then its tags, separated by tabs.
pub open spec fn candidate_of(id: int, name: Seq<char>, tags: Seq<Seq<char>>) -> Seq<char> {
    decimal_of(id) + seq!['\t'] + name + tab_prefixed(tags)
}

/// The lines joined by newlines.
pub open spec fn joined_lines(ls: Seq<Seq<char>>) -> Seq<char>
    decreases ls.len(),
{
    if ls.len() <= 1 {
        if ls.len() == 0 {
            Seq::empty()
        } else {
            ls[0]
        }
    } else {
        joined_lines(ls.drop_last()) + seq!['\n'] + ls.last()
    }
}

/// The candidate line `<id>\t<name>[\t<tag>...]` of a mark.
pub fn candidate_line(id: i64, name: &String, tags: &Vec<String>) -> (r: String)
    ensures
        r@ == candidate_of(id as int, name@, texts(tags@)),
{
    proof {
        reveal_strlit("\t");
    }
    let mut line = decimal_string(id);
    line.append("\t");
    line.append(name.as_str());
    let ghost head = line@;
    assert(texts(tags@).subrange(0, 0) =~= Seq::<Seq<char>>::empty());
    assert(head =~= head + tab_prefixed(texts(tags@).subrange(0, 0)));
    let mut i: usize = 0;
    while i < tags.len()
        invariant
            i <= tags@.len(),
            line@ == head + tab_prefixed(texts(tags@).subrange(0, i as int)),
        decreases tags@.len() - i,
    {
        proof {
            reveal_strlit("\t");
        }
        let ghost prev = line@;
        line.append("\t");
        line.append(tags[i].as_str());
        let ghost sub = texts(tags@).subrange(0, i + 1);
        assert(sub.drop_last() =~= texts(tags@).subrange(0, i as int));
        assert(sub.last() == tags@[i as int]@);
        assert(line@ =~= prev + seq!['\t'] + tags@[i as int]@);
        assert(tab_prefixed(sub) == tab_prefixed(sub.drop_last()) + seq!['\t'] + sub.last());
        assert(line@ =~= head + tab_prefixed(texts(tags@).subrange(0, i + 1)));
        i = i + 1;
    }
    assert(texts(tags@).subrange(0, i as int) =~= texts(tags@));
    line
}

/// The candidate lines of marks given in short form, in the same order.
pub fn mark_candidates(marks: &Vec<MarkShort>) -> (r: Vec<String>)
    ensures
        r@.len() == marks@.len(),
        forall|i: int|
            0 <= i < r@.len() ==> (#[trigger] r@[i])@ == candidate_of(
                marks@[i].id as int,
                marks@[i].name@,
                texts(marks@[i].tags@),
            ),
{
    let mut out: Vec<String> = Vec::new();
    let mut i: usize = 0;
    while i < marks.len()
        invariant
            i <= marks@.len(),
            out@.len() == i,
            forall|a: int|
                0 <= a < i ==> (#[trigger] out@[a])@ == candidate_of(
                    marks@[a].id as int,
                    marks@[a].name@,
                    texts(marks@[a].tags@),
                ),
        decreases marks@.len() - i,
    {
        let m = &marks[i];
        out.push(candidate_line(m.id, &m.name, &m.tags));
        i = i + 1;
    }
    out
}

/// `line` is the candidate line of the `i`-th mark of the store, with its
/// distinct tags in some order.
pub open spec fn is_candidate_for(s: StoreModel, i: int, line: Seq<char>) -> bool {
    exists|tags: Seq<Seq<char>>|
        #![trigger candidate_of(s.marks[i].id, s.marks[i].name, tags)]
        tags.no_duplicates() && tags.to_set() == s.tag_set(s.marks[i].id) && line == candidate_of(
            s.marks[i].id,
            s.marks[i].name,
            tags,
        )
}

/// The picker's candidate lines for every mark of the store, by ascending id,
/// each with the mark's distinct tags.
pub fn get_marks_short(store: &Store) -> (r: Vec<String>)
    ensures
        r@.len() == store@.marks.len(),
        forall|i: int| 0 <= i < r@.len() ==> is_candidate_for(store@, i, (#[trigger] r@[i])@),
{
    let marks = store.list_marks_short();
    let r = mark_candidates(&marks);
    assert forall|i: int| 0 <= i < r@.len() implies is_candidate_for(store@, i, (#[trigger] r@[i])@) by {
        let tags = texts(marks@[i].tags@);
        let e = marks@[i];
        assert(r@[i]@ == candidate_of(e.id as int, e.name@, tags));
        assert(candidate_of(store@.marks[i].id, store@.marks[i].name, tags) == r@[i]@);
    }
    r
}

/// The text fed to the picker: the lines joined by newlines; `None` when
/// there is nothing to choose from, and the picker is then not run.
pub fn picker_input(lines: &Vec<String>) -> (r: Option<String>)
    ensures
        r is None <==> lines@.len() == 0,
        r matches Some(s) ==> s@ == joined_lines(texts(lines@)),
{
    if lines.len() == 0 {
        return None;
    }
    proof {
        reveal_strlit("\n");
    }
    let mut s = lines[0].clone();
    assert(texts(lines@).subrange(0, 1) =~= seq![lines@[0]@]);
    let mut i: usize = 1;
    while i < lines.len()
        invariant
            1 <= i <= lines@.len(),
            s@ == joined_lines(texts(lines@).subrange(0, i as int)),
        decreases lines@.len() - i,
    {
        proof {
            reveal_strlit("\n");
        }
        let ghost prev = s@;
        s.append("\n");
        s.append(lines[i].as_str());
        let ghost sub = texts(lines@).subrange(0, i + 1);
        assert(sub.drop_last() =~= texts(lines@).subrange(0, i as int));
        assert(sub.last() == lines@[i as int]@);
        assert(sub.len() > 1);
        assert(s@ =~= prev + seq!['\n'] + lines@[i as int]@);
        assert(s@ =~= joined_lines(texts(lines@).subrange(0, i + 1)));
        i = i + 1;
    }
    assert(texts(lines@).subrange(0, i as int) =~= texts(lines@));
    Some(s)
}

/// The run of non-whitespace characters at the start of `s`.
pub open spec fn leading_word(s: Seq<char>) -> Seq<char>
    decreases s.len(),
{
    if s.len() == 0 || is_white(s[0]) {
        Seq::empty()
    } else {
        seq![s[0]] + leading_word(s.subrange(1, s.len() as int))
    }
}

/// The first whitespace-delimited word of `s`; empty when there is none.
pub open spec fn first_word(s: Seq<char>) -> Seq<char>
    decreases s.len(),
{
    if s.len() == 0 {
        Seq::empty()
    } else if is_white(s[0]) {
        first_word(s.subrange(1, s.len() as int))
    } else {
        leading_word(s)
    }
}

/// What the picker's answer selects: no mark when it holds no word, else the
/// mark whose id is the first word, which must be an `i64` literal.
pub open spec fn selection_of(s: Seq<char>) -> Result<Option<i64>, PickerError> {
    let w = first_word(s);
    if w.len() == 0 {
        Ok(None)
    } else {
        match integer_literal(w) {
            Some(v) => if i64::MIN <= v <= i64::MAX {
                Ok(Some(v as i64))
            } else {
                Err(PickerError::MalformedSelection)
            },
            None => Err(PickerError::MalformedSelection),
        }
    }
}

/// Reads the mark id from the picker's answer: `None` when nothing was
/// selected, `MalformedSelection` when the first word is no id.
pub fn parse_mark_selection(output: &str) -> (r: Result<Option<i64>, PickerError>)
    ensures
        r == selection_of(output@),
{
    let n = output.unicode_len();
    let ghost s = output@;
    let mut i: usize = 0;
    assert(s.subrange(0, n as int) =~= s);
    while i < n && char_is_white(output.get_char(i))
        invariant
            n == s.len(),
            s == output@,
            i <= n,
            first_word(s) == first_word(s.subrange(i as int, n as int)),
        decreases n - i,
    {
        let ghost t = s.subrange(i as int, n as int);
        assert(t.subrange(1, t.len() as int) =~= s.subrange(i + 1, n as int));
        i = i + 1;
    }
    if i == n {
        assert(s.subrange(i as int, n as int) =~= Seq::<char>::empty());
        return Ok(None);
    }
    let mut j: usize = i;
    assert(s.subrange(i as int, j as int) + s.subrange(j as int, n as int) =~= s.subrange(i as int, n as int));
    while j < n && !char_is_white(output.get_char(j))
        invariant
            n == s.len(),
            s == output@,
            i <= j <= n,
            leading_word(s.subrange(i as int, n as int)) == s.subrange(i as int, j as int)
                + leading_word(s.subrange(j as int, n as int)),
        decreases n - j,
    {
        let ghost t = s.subrange(j as int, n as int);
        assert(t.subrange(1, t.len() as int) =~= s.subrange(j + 1, n as int));
        assert(s.subrange(i as int, j + 1) =~= s.subrange(i as int, j as int) + seq![s[j as int]]);
        assert(s.subrange(i as int, j as int) + leading_word(t) =~= s.subrange(i as int, j + 1)
            + leading_word(s.subrange(j + 1, n as int)));
        j = j + 1;
    }
    assert(leading_word(s.subrange(j as int, n as int)) =~= Seq::<char>::empty());
    assert(s.subrange(i as int, j as int) + Seq::<char>::empty() =~= s.subrange(i as int, j as int));
    let word = output.substring_char(i, j);
    assert(word@.len() > 0);
    match parse_i64(word) {
        Some(v) => Ok(Some(v)),
        None => Err(PickerError::MalformedSelection),
    }
}

/// The answer without its final newline, if it has one.
pub open spec fn without_newline(s: Seq<char>) -> Seq<char> {
    if s.len() > 0 && s.last() == '\n' {
        s.drop_last()
    } else {
        s
    }
}

/// Reads the tag chosen by the picker: its answer without the final newline;
/// `None` when that is empty, for nothing was selected.
pub fn parse_tag_selection(output: &str) -> (r: Option<String>)
    ensures
        r is None <==> without_newline(output@).len() == 0,
        r matches Some(t) ==> t@ == without_newline(output@),
{
    let n = output.unicode_len();
    let mut end: usize = n;
    if n > 0 && output.get_char(n - 1) == '\n' {
        end = n - 1;
    }
    if end == 0 {
        return None;
    }
    let tag = output.substring_char(0, end);
    assert(output@.subrange(0, n as int) =~= output@);
    Some(String::from_str(tag))
}

} // verus!
