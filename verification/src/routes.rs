//! What the request handlers decide.

pub mod admin;
pub mod login;
pub mod newsletter;
pub mod subscriptions;

use vstd::prelude::*;

verus! {

/// The lines that name the causes of an error, the nearest first: for each
/// cause the words `Caused by:`, and below them, behind a tab, its message.
pub open spec fn cause_lines(causes: Seq<Seq<char>>) -> Seq<char>
    decreases causes.len(),
{
    if causes.len() == 0 {
        Seq::empty()
    } else {
        cause_lines(causes.drop_last()) + "Caused by:\n\t"@ + causes.last() + "\n"@
    }
}

/// Writes out an error with the chain of its causes: the message of the
/// error, an empty line, and then the lines that name the causes.
pub fn error_chain_fmt(error: &str, causes: &Vec<String>) -> (text: String)
    ensures
        text@ == error@ + "\n\n"@ + cause_lines(causes.deep_view()),
{
    let mut text = String::from_str(error);
    text.append("\n\n");
    let mut i: usize = 0;
    assert(causes.deep_view().subrange(0, 0) =~= Seq::empty());
    assert(text@ =~= error@ + "\n\n"@ + cause_lines(causes.deep_view().subrange(0, 0)));
    while i < causes.len()
        invariant
            i <= causes.len(),
            text@ == error@ + "\n\n"@ + cause_lines(causes.deep_view().subrange(0, i as int)),
        decreases causes.len() - i,
    {
        text.append("Caused by:\n\t");
        text.append(causes[i].as_str());
        text.append("\n");
        proof {
            let seen = causes.deep_view().subrange(0, i + 1);
            assert(seen.drop_last() =~= causes.deep_view().subrange(0, i as int));
            assert(seen.last() == causes[i as int]@);
            assert(text@ =~= error@ + "\n\n"@ + cause_lines(seen));
        }
        i += 1;
    }
    assert(causes.deep_view().subrange(0, causes.len() as int) =~= causes.deep_view());
    text
}

/// How much a flash message matters.
#[derive(Debug, PartialEq, Eq, Clone, Copy, Structural)]
pub enum FlashLevel {
    Info,
    Error,
}

/// A message that is shown once, on the next page that the caller sees.
#[derive(Debug, PartialEq, Eq)]
pub struct FlashMessage {
    pub level: FlashLevel,
    pub content: String,
}

/// Where a caller is sent, and what the caller is told there.
#[derive(Debug, PartialEq, Eq)]
pub struct Redirect {
    pub location: String,
    pub flash: Option<FlashMessage>,
}

/// The paragraphs that show flash messages, one line for each message and
/// in their order.
pub open spec fn flash_paragraphs(messages: Seq<Seq<char>>) -> Seq<char>
    decreases messages.len(),
{
    if messages.len() == 0 {
        Seq::empty()
    } else {
        flash_paragraphs(messages.drop_last()) + "<p><i>"@ + messages.last() + "</i></p>\n"@
    }
}

/// Renders flash messages for a page: each in a paragraph of its own, in
/// italics, on a line of its own.
pub fn flash_messages_html(messages: &Vec<String>) -> (html: String)
    ensures
        html@ == flash_paragraphs(messages.deep_view()),
{
    let mut html = String::new();
    let mut i: usize = 0;
    assert(messages.deep_view().subrange(0, 0) =~= Seq::empty());
    assert(html@ =~= flash_paragraphs(messages.deep_view().subrange(0, 0)));
    while i < messages.len()
        invariant
            i <= messages.len(),
            html@ == flash_paragraphs(messages.deep_view().subrange(0, i as int)),
        decreases messages.len() - i,
    {
        html.append("<p><i>");
        html.append(messages[i].as_str());
        html.append("</i></p>\n");
        proof {
            let seen = messages.deep_view().subrange(0, i + 1);
            assert(seen.drop_last() =~= messages.deep_view().subrange(0, i as int));
            assert(seen.last() == messages[i as int]@);
            assert(html@ =~= flash_paragraphs(seen));
        }
        i += 1;
    }
    assert(messages.deep_view().subrange(0, messages.len() as int) =~= messages.deep_view());
    html
}

} // verus!
