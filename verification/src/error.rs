//! Small diagnostic errors: no request bodies, credentials, or SDP in messages.
use crate::music;
use crate::text;
use vstd::prelude::*;
use vstd::string::*;

verus! {

/// What lies behind an error: the code of a native call, the music reader, or the transport.
#[derive(Debug, Clone, Copy)]
pub enum Cause {
    Native(i32),
    Music(music::Error),
    Transport(&'static str),
}

#[derive(Debug, Clone, Copy)]
pub struct Error {
    pub context: &'static str,
    pub cause: Option<Cause>,
}

/// The text of an error: its context, then its cause.
pub open spec fn error_text(error: Error) -> Seq<char> {
    error.context@ + match error.cause {
        None => Seq::empty(),
        Some(Cause::Native(code)) => " (code "@ + text::signed(code as int) + ")"@,
        Some(Cause::Music(error)) => ": "@ + music::error_text(error),
        Some(Cause::Transport(text)) => ": "@ + text@,
    }
}

impl Error {
    pub fn new(context: &'static str) -> (error: Self)
        ensures
            error == (Error { context, cause: None }),
    {
        Error { context, cause: None }
    }

    pub fn native(context: &'static str, code: i32) -> (error: Self)
        ensures
            error == (Error { context, cause: Some(Cause::Native(code)) }),
    {
        Error { context, cause: Some(Cause::Native(code)) }
    }

    pub fn music(error: music::Error) -> (result: Self)
        ensures
            result == (Error { context: "music unavailable", cause: Some(Cause::Music(error)) }),
    {
        Error { context: "music unavailable", cause: Some(Cause::Music(error)) }
    }

    pub fn transport(text: &'static str) -> (error: Self)
        ensures
            error == (Error { context: "WebRTC transport", cause: Some(Cause::Transport(text)) }),
    {
        Error { context: "WebRTC transport", cause: Some(Cause::Transport(text)) }
    }

    pub fn message(&self) -> (text: String)
        ensures
            text@ == error_text(*self),
    {
        let mut shown = String::from_str(self.context);
        match self.cause {
            None => {},
            Some(Cause::Native(code)) => {
                shown.append(" (code ");
                text::push_signed(&mut shown, code);
                shown.append(")");
            },
            Some(Cause::Music(error)) => {
                shown.append(": ");
                shown.append(error.message());
            },
            Some(Cause::Transport(text)) => {
                shown.append(": ");
                shown.append(text);
            },
        }
        assert(shown@ =~= error_text(*self));
        shown
    }
}

/// Zero is success; every other code is an error of its context.
pub fn check(code: i32, context: &'static str) -> (result: Result<(), Error>)
    ensures
        result is Ok <==> code == 0,
        result matches Err(error) ==> error == (Error {
            context,
            cause: Some(Cause::Native(code)),
        }),
{
    if code == 0 {
        Ok(())
    } else {
        Err(Error::native(context, code))
    }
}

/// The text of an error begins with its context, and tells its cause whole: the code of a native
/// call can be read back from it, and what the reader or the transport says stands at its end.
pub proof fn lemma_an_error_tells_its_context_and_its_cause(error: Error)
    ensures
        ({
            let shown = error_text(error);
            let context = error.context@.len() as int;
            &&& error.context@.is_prefix_of(shown)
            &&& error.cause is None ==> shown == error.context@
            &&& (error.cause matches Some(Cause::Native(code)) ==> {
                let number = shown.subrange(context + 7, shown.len() - 1);
                &&& shown.subrange(context, context + 7) == " (code "@
                &&& shown.last() == ')'
                &&& code >= 0 ==> text::digits_value(number, 10) == code
                &&& code < 0 ==> number[0] == '-' && text::digits_value(number.drop_first(), 10)
                    == -code
            })
            &&& (error.cause matches Some(Cause::Music(cause)) ==> {
                &&& shown.subrange(context, context + 2) == ": "@
                &&& shown.skip(context + 2) == music::error_text(cause)
            })
            &&& (error.cause matches Some(Cause::Transport(said)) ==> {
                &&& shown.subrange(context, context + 2) == ": "@
                &&& shown.skip(context + 2) == said@
            })
        }),
{
    reveal_strlit(" (code ");
    reveal_strlit(")");
    reveal_strlit(": ");
    let shown = error_text(error);
    let context = error.context@.len() as int;
    assert(" (code "@.len() == 7 && ")"@.len() == 1 && ": "@.len() == 2);
    match error.cause {
        None => {
            assert(shown =~= error.context@);
        },
        Some(Cause::Native(code)) => {
            assert(shown.subrange(context, context + 7) =~= " (code "@);
            assert(shown.subrange(context + 7, shown.len() - 1) =~= text::signed(code as int));
            assert(shown.last() == ")"@[0]);
            text::lemma_signed_reads_back(code as int);
        },
        Some(Cause::Music(cause)) => {
            assert(shown.subrange(context, context + 2) =~= ": "@);
            assert(shown.skip(context + 2) =~= music::error_text(cause));
        },
        Some(Cause::Transport(said)) => {
            assert(shown.subrange(context, context + 2) =~= ": "@);
            assert(shown.skip(context + 2) =~= said@);
        },
    }
}

} // verus!
