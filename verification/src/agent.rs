//! The agent command line and how a prompt is handed to it.

use vstd::prelude::*;
use crate::text::{
    chars_eq, chars_of, contains, contains_exec, find_char_exec, lemma_chars_deep_view,
    lemma_deep_view_push, lemma_skip_while, ne_pred, replace_all, replace_all_exec, skip_while,
    string_of, sub_chars, words, words_exec,
};

verus! {

/// An agent, run through a command line.
pub struct Agent {
    pub command_line: String,
}

/// How to start the agent for one prompt.
pub struct Invocation {
    /// The program to run.
    pub program: String,
    /// Its arguments.
    pub args: Vec<String>,
    /// Whether the prompt goes to the agent's standard input (the command
    /// line has no `{prompt}` placeholder) rather than into an argument.
    pub prompt_via_stdin: bool,
}

/// The text before the first space (the whole text when there is none).
pub open spec fn before_first_space(s: Seq<char>) -> Seq<char> {
    s.take(skip_while(s, 0, ne_pred(' ')))
}

/// The text after the first space, if there is one.
pub open spec fn after_first_space(s: Seq<char>) -> Option<Seq<char>> {
    let i = skip_while(s, 0, ne_pred(' '));
    if i < s.len() {
        Some(s.skip(i + 1))
    } else {
        None
    }
}

/// The placeholder for the prompt.
pub open spec fn prompt_token() -> Seq<char> {
    "{prompt}"@
}

/// The command line with the prompt filled in, when it has a placeholder.
pub open spec fn resolved_command(command_line: Seq<char>, prompt: Seq<char>) -> Seq<char> {
    if contains(command_line, prompt_token()) {
        replace_all(command_line, prompt_token(), prompt)
    } else {
        command_line
    }
}

/// The program: everything before the first space of the resolved command.
pub open spec fn invocation_program(command_line: Seq<char>, prompt: Seq<char>) -> Seq<char> {
    before_first_space(resolved_command(command_line, prompt))
}

/// A word of the command line, with the placeholder standing for the prompt.
pub open spec fn fill_prompt(word: Seq<char>, prompt: Seq<char>) -> Seq<char> {
    if word == prompt_token() {
        prompt
    } else {
        word
    }
}

/// The arguments.  With a placeholder: the words after the first space of
/// the command line as written, the word `{prompt}` replaced by the whole
/// prompt as one argument.  Without: the words after the first space.
pub open spec fn invocation_args(command_line: Seq<char>, prompt: Seq<char>) -> Seq<Seq<char>> {
    if contains(command_line, prompt_token()) {
        match after_first_space(command_line) {
            Some(rest) => words(rest).map_values(|w: Seq<char>| fill_prompt(w, prompt)),
            None => seq![],
        }
    } else {
        match after_first_space(command_line) {
            Some(rest) => words(rest),
            None => seq![],
        }
    }
}

/// Splits `s` at its first space.
fn split_first_space(s: &[char]) -> (res: (Vec<char>, Option<Vec<char>>))
    ensures
        res.0@ == before_first_space(s@),
        match res.1 {
            Some(r) => after_first_space(s@) == Some(r@),
            None => after_first_space(s@) is None,
        },
{
    let i = find_char_exec(s, 0, ' ');
    proof {
        lemma_skip_while(s@, 0, ne_pred(' '));
    }
    let head = sub_chars(s, 0, i);
    if i < s.len() {
        (head, Some(sub_chars(s, i + 1, s.len())))
    } else {
        (head, None)
    }
}

impl Agent {
    /// An agent run through `command_line`.
    pub fn new(command_line: String) -> (res: Self)
        ensures
            res.command_line == command_line,
    {
        Self { command_line }
    }

    /// How to start the agent for `prompt`.
    pub fn invocation(&self, prompt: &str) -> (res: Invocation)
        ensures
            res.program@ == invocation_program(self.command_line@, prompt@),
            res.args.deep_view() == invocation_args(self.command_line@, prompt@),
            res.prompt_via_stdin == !contains(self.command_line@, prompt_token()),
    {
        let line = chars_of(self.command_line.as_str());
        let token = chars_of("{prompt}");
        proof {
            reveal_strlit("{prompt}");
        }
        let p = chars_of(prompt);
        let use_prompt_arg = contains_exec(line.as_slice(), token.as_slice());
        let resolved = if use_prompt_arg {
            replace_all_exec(line.as_slice(), token.as_slice(), p.as_slice())
        } else {
            chars_of(self.command_line.as_str())
        };
        let (program, _) = split_first_space(resolved.as_slice());
        let (_, rest) = split_first_space(line.as_slice());
        let mut args: Vec<String> = Vec::new();
        match rest {
            None => {},
            Some(r) => {
                let ws = words_exec(r.as_slice());
                let ghost target = if use_prompt_arg {
                    words(r@).map_values(|w: Seq<char>| fill_prompt(w, prompt@))
                } else {
                    words(r@)
                };
                let mut k: usize = 0;
                while k < ws.len()
                    invariant
                        k <= ws@.len(),
                        ws.deep_view() == words(r@),
                        token@ == prompt_token(),
                        p@ == prompt@,
                        use_prompt_arg == contains(self.command_line@, prompt_token()),
                        target == (if use_prompt_arg {
                            words(r@).map_values(|w: Seq<char>| fill_prompt(w, prompt@))
                        } else {
                            words(r@)
                        }),
                        args.deep_view() =~= target.take(k as int),
                    decreases ws@.len() - k,
                {
                    proof {
                        lemma_chars_deep_view(ws@[k as int]);
                    }
                    let w = if use_prompt_arg && chars_eq(ws[k].as_slice(), token.as_slice()) {
                        string_of(p.as_slice())
                    } else {
                        string_of(ws[k].as_slice())
                    };
                    args.push(w);
                    assert(target.take(k + 1) =~= target.take(k as int).push(w@));
                    k = k + 1;
                }
                assert(target.take(ws@.len() as int) =~= target);
            },
        }
        Invocation { program: string_of(program.as_slice()), args, prompt_via_stdin: !use_prompt_arg }
    }
}

/// The prompt travels as a single argument: with a `{prompt}` placeholder,
/// every argument position where the command line has the word `{prompt}`
/// holds the whole prompt (whatever spaces it contains), and every other
/// word of the command line is passed unchanged.
pub proof fn law_prompt_is_one_argument(command_line: Seq<char>, prompt: Seq<char>)
    requires
        contains(command_line, prompt_token()),
    ensures
        after_first_space(command_line) matches Some(rest) ==> {
            &&& invocation_args(command_line, prompt).len() == words(rest).len()
            &&& forall|j: int|
                0 <= j < words(rest).len() ==> #[trigger] invocation_args(command_line, prompt)[j]
                    == if words(rest)[j] == prompt_token() {
                    prompt
                } else {
                    words(rest)[j]
                }
        },
{
}

} // verus!
