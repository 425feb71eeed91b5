//! Action executor planning: escape the selected identifier as one shell
//! word, substitute it into the command template (or append it), and decide
//! whether the run prints the identifier or executes a line.

use vstd::prelude::*;

verus! {

/// A character the shell escaper leaves alone inside a word.
pub open spec fn shell_safe_char(c: char) -> bool {
    ||| ('a' as u32 <= c as u32 && c as u32 <= 'z' as u32)
    ||| ('A' as u32 <= c as u32 && c as u32 <= 'Z' as u32)
    ||| ('0' as u32 <= c as u32 && c as u32 <= '9' as u32)
    ||| c == '-'
    ||| c == '_'
    ||| c == '='
    ||| c == '/'
    ||| c == ','
    ||| c == '.'
    ||| c == '+'
}

/// A word the shell escaper returns unchanged: nonempty and made of plain
/// characters only.
pub open spec fn shell_safe(s: Seq<char>) -> bool {
    s.len() > 0 && (forall|i: int| 0 <= i < s.len() ==> shell_safe_char(#[trigger] s[i]))
}

/// The inside of a single-quoted shell word: embedded quotes and
/// exclamation marks are closed off, backslash-escaped and reopened.
pub open spec fn quoted_body(s: Seq<char>) -> Seq<char>
    decreases s.len(),
{
    if s.len() == 0 {
        Seq::empty()
    } else {
        (if s[0] == '\'' || s[0] == '!' {
            seq!['\'', '\\', s[0], '\'']
        } else {
            seq![s[0]]
        }) + quoted_body(s.drop_first())
    }
}

/// What escaping makes of one word: a safe word is kept as it is, anything
/// else is wrapped in single quotes with its quotes and exclamation marks
/// escaped.
pub open spec fn escaped(s: Seq<char>) -> Seq<char> {
    if shell_safe(s) {
        s
    } else {
        seq!['\''] + quoted_body(s) + seq!['\'']
    }
}

/// Relies on shell_escape::unix::escape: a nonempty word of whitelisted
/// characters is returned unchanged; any other word is single-quoted, with
/// embedded quotes and exclamation marks escaped.
#[verifier::external_body]
fn escape_word(s: &str) -> (r: String)
    ensures
        r@ == escaped(s@),
{
    shell_escape::unix::escape(std::borrow::Cow::Borrowed(s)).into_owned()
}

/// The placeholder token `{}` starts at position `i` of `s`.
pub open spec fn brace_at(s: Seq<char>, i: int) -> bool {
    0 <= i && i + 2 <= s.len() && s[i] == '{' && s[i + 1] == '}'
}

/// The template holds the placeholder token somewhere.
pub open spec fn has_placeholder(s: Seq<char>) -> bool {
    exists|i: int| brace_at(s, i)
}

/// The template with every placeholder token replaced by `v`, scanning left
/// to right without overlap.
pub open spec fn substituted(t: Seq<char>, v: Seq<char>) -> Seq<char>
    decreases t.len(),
{
    if t.len() < 2 {
        t
    } else if t[0] == '{' && t[1] == '}' {
        v + substituted(t.skip(2), v)
    } else {
        seq![t[0]] + substituted(t.drop_first(), v)
    }
}

/// The executed line for a template and a selected identifier: the escaped
/// identifier replaces the placeholder when the template has one, and is
/// appended as a trailing word otherwise.
pub open spec fn command_line(t: Seq<char>, id: Seq<char>) -> Seq<char> {
    if has_placeholder(t) {
        substituted(t, escaped(id))
    } else {
        t + " "@ + escaped(id)
    }
}

/// Position of the first placeholder token, if the template has one.
#[verifier::loop_isolation(false)]
fn find_placeholder(t: &str) -> (r: Option<usize>)
    ensures
        r is Some <==> has_placeholder(t@),
        r matches Some(i) ==> brace_at(t@, i as int),
{
    let n = t.unicode_len();
    let mut i: usize = 0;
    while i < n && i + 1 < n
        invariant
            0 <= i <= n,
            forall|j: int| 0 <= j < i ==> !brace_at(t@, j),
        decreases n - i,
    {
        if t.get_char(i) == '{' && t.get_char(i + 1) == '}' {
            proof {
                assert(brace_at(t@, i as int));
                assert(has_placeholder(t@));
            }
            return Some(i);
        }
        i += 1;
    }
    proof {
        assert forall|j: int| !brace_at(t@, j) by {
            if 0 <= j && j + 2 <= n {
                assert(j < i);
            }
        };
    }
    None
}

/// Builds the line to execute: escapes the identifier once, then replaces
/// each placeholder with it, or appends it when the template has none.
#[verifier::loop_isolation(false)]
pub fn build_command_line(template: &str, id: &str) -> (r: String)
    ensures
        r@ == command_line(template@, id@),
{
    let esc = escape_word(id);
    match find_placeholder(template) {
        None => {
            let mut out = template.to_owned();
            out.append(" ");
            out.append(esc.as_str());
            out
        },
        Some(_) => {
            let n = template.unicode_len();
            let ghost ts = template@;
            let mut out = String::new();
            proof {
                assert(ts.skip(0) =~= ts);
            }
            let mut i: usize = 0;
            while i < n
                invariant
                    0 <= i <= n,
                    substituted(ts, esc@) == out@ + substituted(ts.skip(i as int), esc@),
                decreases n - i,
            {
                proof {
                    assert(ts.skip(i as int)[0] == ts[i as int]);
                }
                let two_left = i + 1 < n;
                if two_left && template.get_char(i) == '{' && template.get_char(i + 1) == '}' {
                    proof {
                        assert(ts.skip(i as int)[1] == ts[i as int + 1]);
                        assert(ts.skip(i as int).skip(2) =~= ts.skip(i as int + 2));
                    }
                    out.append(esc.as_str());
                    i += 2;
                } else {
                    proof {
                        assert(ts.skip(i as int).drop_first() =~= ts.skip(i as int + 1));
                        if i + 1 == n {
                            assert(ts.skip(i as int) =~= seq![ts[i as int]]);
                            assert(ts.skip(i as int + 1) =~= Seq::<char>::empty());
                            assert(substituted(ts.skip(i as int), esc@) =~= seq![ts[i as int]]
                                + substituted(ts.skip(i as int + 1), esc@));
                        }
                    }
                    let piece = template.substring_char(i, i + 1);
                    proof {
                        assert(piece@ =~= seq![ts[i as int]]);
                    }
                    out.append(piece);
                    i += 1;
                }
            }
            proof {
                assert(ts.skip(n as int) =~= Seq::<char>::empty());
                assert(out@ =~= substituted(ts, esc@));
            }
            out
        },
    }
}

/// What the action executor does once an identifier has been selected.
#[derive(Debug)]
pub enum Action {
    /// Print this text and succeed.
    Print(String),
    /// Run this line through the shell; a nonzero exit fails the run.
    Run(String),
}

/// Decides the run's final action: with no template the identifier itself is
/// printed; with a template the built command line is executed.
pub fn plan_action(command: &Option<String>, id: &str) -> (a: Action)
    ensures
        command is None ==> (a matches Action::Print(s) && s@ == id@),
        command matches Some(t) ==> (a matches Action::Run(c) && c@ == command_line(t@, id@)),
{
    match command {
        None => Action::Print(id.to_owned()),
        Some(t) => Action::Run(build_command_line(t.as_str(), id)),
    }
}

} // verus!
