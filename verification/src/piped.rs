//! Prompts made of what is piped into `cx`.

use vstd::prelude::*;

use crate::lines::join;
use crate::text::concat4;
use crate::text::copy_of;

verus! {

/// The prompt that arguments make.
pub open spec fn words_prompt(args: Seq<Seq<char>>) -> Seq<char> {
    let words = crate::lines::joined(args, " "@);
    if words.len() == 0 {
        "Use the following stdin as context."@
    } else {
        words
    }
}

/// The prompt with what was piped in.
pub open spec fn piped_prompt(args: Seq<Seq<char>>, input: Seq<char>) -> Seq<char> {
    words_prompt(args) + "\n\n<stdin>\n"@ + input + "\n</stdin>"@
}

/// The prompt with what was piped in.
pub fn build_stdin_prompt(args: &Vec<String>, input: &str) -> (out: String)
    ensures
        out@ == piped_prompt(crate::text::texts(args@), input@),
{
    let words = join(args, " ");
    let prompt = if words.as_str().unicode_len() == 0 {
        copy_of("Use the following stdin as context.")
    } else {
        words
    };
    concat4(prompt.as_str(), "\n\n<stdin>\n", input, "\n</stdin>")
}

/// A program and its arguments.
#[derive(Debug)]
pub struct Invocation {
    pub program: String,
    pub args: Vec<String>,
}

/// The call that starts `cx` again with a prompt, on the terminal: through `script`
/// where there is one.
pub fn piped_invocation(has_script: bool, cx: &str, prompt: &str) -> (out: Invocation)
    ensures
        out.program@ == (if has_script {
            "script"@
        } else {
            cx@
        }),
        crate::text::texts(out.args@) == (if has_script {
            seq!["-q"@, "/dev/null"@, cx@, "--"@, prompt@]
        } else {
            seq!["--"@, prompt@]
        }),
{
    let mut args: Vec<String> = Vec::new();
    if has_script {
        args.push(copy_of("-q"));
        args.push(copy_of("/dev/null"));
        args.push(copy_of(cx));
    }
    args.push(copy_of("--"));
    args.push(copy_of(prompt));
    proof {
        if has_script {
            assert(crate::text::texts(args@) =~= seq!["-q"@, "/dev/null"@, cx@, "--"@, prompt@]);
        } else {
            assert(crate::text::texts(args@) =~= seq!["--"@, prompt@]);
        }
    }
    Invocation {
        program: if has_script {
            copy_of("script")
        } else {
            copy_of(cx)
        },
        args,
    }
}

/// What is piped in is in the prompt, whatever the arguments are.
pub proof fn input_is_in_the_prompt(args: Seq<Seq<char>>, input: Seq<char>)
    ensures
        ({
            let from = (words_prompt(args) + "\n\n<stdin>\n"@).len() as int;
            piped_prompt(args, input).subrange(from, from + input.len()) == input
        }),
{
    let head = words_prompt(args) + "\n\n<stdin>\n"@;
    let from = head.len() as int;
    assert(piped_prompt(args, input) =~= head + input + "\n</stdin>"@);
    assert(piped_prompt(args, input).subrange(from, from + input.len()) =~= input);
}

/// What was typed is the question, and where nothing was, the input is given as
/// context.
pub proof fn words_are_the_question(args: Seq<Seq<char>>, word: Seq<char>, input: Seq<char>)
    ensures
        word.len() > 0 ==> words_prompt(seq![word]) == word,
        args.len() > 0 && words_prompt(args) == crate::lines::joined(args, " "@) ==> words_prompt(
            args.push(word),
        ) == words_prompt(args) + " "@ + word,
        words_prompt(seq![]) == "Use the following stdin as context."@,
        crate::text::has_prefix(piped_prompt(args, input), words_prompt(args)),
        crate::text::has_suffix(piped_prompt(args, input), "\n</stdin>"@),
{
    reveal_strlit(" ");
    crate::lines::texts_are_joined_in_order(args, word, " "@);
    let all = piped_prompt(args, input);
    let words = words_prompt(args);
    assert(all.take(words.len() as int) =~= words);
    assert(all.skip(all.len() - "\n</stdin>"@.len()) =~= "\n</stdin>"@);
}

} // verus!
