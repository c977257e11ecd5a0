//! Text helpers: views of string collections, path joining and the split of
//! a rule file into lines.

use vstd::prelude::*;
use vstd::string::StringExecFns;

verus! {

/// `String::push` appends one character to the end of the string.
pub assume_specification[ String::push ](s: &mut String, ch: char)
    ensures
        final(s)@ == old(s)@.push(ch),
;

/// The views of the items of a sequence, in the same order.
pub open spec fn views<T: View>(items: Seq<T>) -> Seq<T::V> {
    Seq::new(items.len(), |i: int| items[i]@)
}

/// Pushing an item pushes its view.
pub proof fn lemma_views_push<T: View>(items: Seq<T>, item: T)
    ensures
        views(items.push(item)) == views(items).push(item@),
{
}

/// The path of the entry `name` inside the directory `dir`: the two are
/// joined by one separator unless `dir` is empty or already ends in one.
pub open spec fn join_path(dir: Seq<char>, name: Seq<char>) -> Seq<char> {
    if dir.len() == 0 {
        name
    } else if dir.last() == '/' {
        dir + name
    } else {
        dir.push('/') + name
    }
}

/// Joins a directory path and an entry name.
pub fn join(dir: &str, name: &str) -> (path: String)
    ensures
        path@ == join_path(dir@, name@),
{
    let n = dir.unicode_len();
    let mut path = String::from_str(dir);
    if n > 0 {
        let last = dir.get_char(n - 1);
        if last != '/' {
            path.push('/');
        }
    }
    path.append(name);
    path
}

/// Whether two texts hold the same characters.
pub fn same_text(a: &str, b: &str) -> (same: bool)
    ensures
        same == (a@ == b@),
{
    let left = String::from_str(a);
    let right = String::from_str(b);
    left == right
}

/// The byte-order mark that some editors put at the start of a text file.
pub open spec fn is_bom(c: char) -> bool {
    c == '\u{feff}'
}

/// The text without the byte-order marks at its start.
pub open spec fn without_bom(text: Seq<char>) -> Seq<char>
    decreases text.len(),
{
    if text.len() > 0 && is_bom(text[0]) {
        without_bom(text.drop_first())
    } else {
        text
    }
}

/// A line without the carriage return at its end, where it has one.
pub open spec fn without_cr(line: Seq<char>) -> Seq<char> {
    if line.len() > 0 && line.last() == '\r' {
        line.drop_last()
    } else {
        line
    }
}

/// The lines that end inside `text`, and the characters after the last
/// newline.
pub open spec fn split_state(text: Seq<char>) -> (Seq<Seq<char>>, Seq<char>)
    decreases text.len(),
{
    if text.len() == 0 {
        (Seq::empty(), Seq::empty())
    } else {
        let (done, rest) = split_state(text.drop_last());
        if text.last() == '\n' {
            (done.push(without_cr(rest)), Seq::empty())
        } else {
            (done, rest.push(text.last()))
        }
    }
}

/// The lines of `text`: the stretches between line ends, without the line
/// ends. A line ends with a newline, or with a carriage return and a
/// newline. Text after the last newline is a line of its own unless it is
/// empty.
pub open spec fn text_lines(text: Seq<char>) -> Seq<Seq<char>> {
    let (done, rest) = split_state(text);
    if rest.len() > 0 {
        done.push(rest)
    } else {
        done
    }
}

/// The lines of a rule file: those of its text after the byte-order marks at
/// its start.
pub open spec fn rule_lines(text: Seq<char>) -> Seq<Seq<char>> {
    text_lines(without_bom(text))
}

/// Skipping `k` leading byte-order marks, where the character after them is
/// none, gives the text without its byte-order marks.
pub proof fn lemma_without_bom_skip(text: Seq<char>, k: int)
    requires
        0 <= k <= text.len(),
        forall|j: int| 0 <= j < k ==> is_bom(text[j]),
        k < text.len() ==> !is_bom(text[k]),
    ensures
        without_bom(text) == text.skip(k),
    decreases k,
{
    if k > 0 {
        lemma_without_bom_skip(text.drop_first(), k - 1);
    }
}

/// Whether a line is free of newlines.
pub open spec fn has_no_newline(line: Seq<char>) -> bool {
    forall|j: int| 0 <= j < line.len() ==> line[j] != '\n'
}

/// No line of a text holds a newline.
pub proof fn lemma_lines_hold_no_newline(text: Seq<char>)
    ensures
        forall|i: int| 0 <= i < text_lines(text).len() ==> has_no_newline(#[trigger] text_lines(text)[i]),
{
    lemma_split_state_holds_no_newline(text);
}

proof fn lemma_split_state_holds_no_newline(text: Seq<char>)
    ensures
        forall|i: int|
            0 <= i < split_state(text).0.len() ==> has_no_newline(#[trigger] split_state(text).0[i]),
        has_no_newline(split_state(text).1),
    decreases text.len(),
{
    if text.len() > 0 {
        lemma_split_state_holds_no_newline(text.drop_last());
    }
}

/// Splits the text of a rule file into its lines.
pub fn split_lines(text: &str) -> (lines: Vec<String>)
    ensures
        views(lines@) == rule_lines(text@),
{
    let mut lines: Vec<String> = Vec::new();
    let mut rest = String::new();
    let mut held = false;
    let mut started = false;
    let ghost mut k: int = 0;
    for c in it: text.chars()
        invariant
            it.seq() == text@,
            0 <= k <= it.index(),
            forall|j: int| 0 <= j < k ==> is_bom(text@[j]),
            started ==> k < it.index() && !is_bom(text@[k]),
            !started ==> k == it.index(),
            !held ==> rest@.len() == 0 || rest@.last() != '\r',
            split_state(text@.subrange(k, it.index() as int)) == (
                views(lines@),
                if held {
                    rest@.push('\r')
                } else {
                    rest@
                },
            ),
    {
        let ghost i = it.index() as int;
        if !started && c == '\u{feff}' {
            proof {
                k = k + 1;
            }
        } else {
            started = true;
            proof {
                assert(text@.subrange(k, i + 1).drop_last() =~= text@.subrange(k, i));
                assert(rest@.push('\r').drop_last() =~= rest@);
            }
            if c == '\n' {
                proof {
                    lemma_views_push(lines@, rest);
                }
                lines.push(rest);
                rest = String::new();
                held = false;
            } else {
                if held {
                    rest.push('\r');
                }
                if c == '\r' {
                    held = true;
                } else {
                    rest.push(c);
                    held = false;
                }
            }
        }
    }
    if held {
        rest.push('\r');
    }
    proof {
        lemma_without_bom_skip(text@, k);
    }
    if rest.unicode_len() > 0 {
        proof {
            lemma_views_push(lines@, rest);
        }
        lines.push(rest);
    }
    lines
}

} // verus!
