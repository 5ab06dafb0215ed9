//! `echo`: prints its arguments separated by spaces.
use vstd::prelude::*;
use crate::text::{join, views, join_strings, push_char, string_of};

verus! {

/// The words to print, and whether to leave out the final newline.
#[derive(Debug)]
pub struct Args {
    pub text: Vec<String>,
    pub omit_newline: bool,
}

/// The message for a command line without text.
pub open spec fn missing_text() -> Seq<char> {
    "the following required arguments were not provided: <TEXT>..."@
}

/// Builds the arguments; at least one word of text is required.
///
/// The program has clap apply the same rules to its command line first, so
/// there the error text, which error comes first and the exit status are
/// clap's; the messages stated here are what this function returns.
pub fn get_args(text: Vec<String>, omit_newline: bool) -> (r: Result<Args, String>)
    ensures
        r is Err <==> text@.len() == 0,
        r matches Err(e) ==> e@ == missing_text(),
        r matches Ok(a) ==> a.text == text && a.omit_newline == omit_newline,
{
    if text.len() == 0 {
        return Err(string_of("the following required arguments were not provided: <TEXT>..."));
    }
    Ok(Args { text, omit_newline })
}

/// What is printed: the words joined by single spaces, then a newline
/// unless it is left out.
pub open spec fn echo_of(text: Seq<Seq<char>>, omit_newline: bool) -> Seq<char> {
    join(text, seq![' ']) + if omit_newline {
        seq![]
    } else {
        seq!['\n']
    }
}

/// The text printed for `args`.
pub fn output(args: &Args) -> (s: String)
    ensures
        s@ == echo_of(views(args.text@), args.omit_newline),
{
    let mut s = join_strings(&args.text, " ");
    proof {
        reveal_strlit(" ");
    }
    assert(" "@ =~= seq![' ']);
    if !args.omit_newline {
        push_char(&mut s, '\n');
    }
    assert(s@ =~= echo_of(views(args.text@), args.omit_newline));
    s
}

} // verus!
