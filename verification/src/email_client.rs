//! The sender of emails as the library sees it: what it is asked, and what
//! it answers.

use crate::domain::subscriber_email::SubscriberEmail;
use crate::store::{NewsletterIssue, NewsletterIssueView};
use vstd::prelude::*;

verus! {

/// The transport could not take a delivery.
#[derive(Debug, PartialEq, Eq, Clone, Copy, Structural)]
pub struct TransportError;

/// One request to the sender: whom to send to, and what.
#[derive(Debug, PartialEq, Eq)]
pub struct EmailRequest {
    pub recipient: SubscriberEmail,
    pub subject: String,
    pub html_content: String,
    pub text_content: String,
}

/// Mathematical content of an [`EmailRequest`].
pub struct EmailRequestView {
    pub recipient: Seq<char>,
    pub subject: Seq<char>,
    pub html_content: Seq<char>,
    pub text_content: Seq<char>,
}

impl View for EmailRequest {
    type V = EmailRequestView;

    open spec fn view(&self) -> EmailRequestView {
        EmailRequestView {
            recipient: self.recipient@,
            subject: self.subject@,
            html_content: self.html_content@,
            text_content: self.text_content@,
        }
    }
}

/// One request that the sender was asked, and whether it answered that the
/// email was delivered.
pub struct Answered {
    pub request: EmailRequestView,
    pub delivered: bool,
}

/// What of an issue goes into an email: its title and its two bodies.
#[derive(Debug, PartialEq, Eq)]
pub struct IssueContent {
    pub title: String,
    pub text_content: String,
    pub html_content: String,
}

/// Mathematical content of an [`IssueContent`].
pub struct IssueContentView {
    pub title: Seq<char>,
    pub text_content: Seq<char>,
    pub html_content: Seq<char>,
}

impl View for IssueContent {
    type V = IssueContentView;

    open spec fn view(&self) -> IssueContentView {
        IssueContentView {
            title: self.title@,
            text_content: self.text_content@,
            html_content: self.html_content@,
        }
    }
}

/// What of a stored issue goes into an email.
pub open spec fn content_of(issue: NewsletterIssueView) -> IssueContentView {
    IssueContentView {
        title: issue.title,
        text_content: issue.text_content,
        html_content: issue.html_content,
    }
}

/// The request that sends an issue, given by its content, to a recipient:
/// the subject is the title of the issue, the HTML body its HTML content,
/// the text body its text content.
pub open spec fn request_of(recipient: Seq<char>, content: IssueContentView) -> EmailRequestView {
    EmailRequestView {
        recipient,
        subject: content.title,
        html_content: content.html_content,
        text_content: content.text_content,
    }
}

/// The request that sends a stored issue to a recipient.
pub open spec fn request_for(recipient: Seq<char>, issue: NewsletterIssueView) -> EmailRequestView {
    request_of(recipient, content_of(issue))
}

/// Takes out of a stored issue what goes into an email.
pub fn issue_content(issue: NewsletterIssue) -> (content: IssueContent)
    ensures
        content@ == content_of(issue@),
{
    IssueContent {
        title: issue.title,
        text_content: issue.text_content,
        html_content: issue.html_content,
    }
}

/// Makes the request that sends an issue to a recipient.
pub fn email_request(recipient: SubscriberEmail, content: IssueContent) -> (request: EmailRequest)
    ensures
        request@ == request_of(recipient@, content@),
{
    EmailRequest {
        recipient,
        subject: content.title,
        html_content: content.html_content,
        text_content: content.text_content,
    }
}

/// What sends an email to one recipient. It may deliver or fail as it
/// likes; it keeps account of every request that it is asked, in order, and
/// of what it answered.
pub trait EmailSender {
    /// The requests that the sender was asked so far, each with its answer.
    spec fn asked(&self) -> Seq<Answered>;

    /// Asks the sender to send one email.
    fn send_email(
        &mut self,
        recipient: &SubscriberEmail,
        subject: &str,
        html_content: &str,
        text_content: &str,
    ) -> (answer: Result<(), TransportError>)
        ensures
            final(self).asked() == old(self).asked().push(
                Answered {
                    request: EmailRequestView {
                        recipient: recipient@,
                        subject: subject@,
                        html_content: html_content@,
                        text_content: text_content@,
                    },
                    delivered: answer is Ok,
                },
            ),
    ;
}

/// Hands a request to a sender.
pub fn send<S: EmailSender>(email_client: &mut S, request: &EmailRequest) -> (answer: Result<
    (),
    TransportError,
>)
    ensures
        final(email_client).asked() == old(email_client).asked().push(
            Answered { request: request@, delivered: answer is Ok },
        ),
{
    email_client.send_email(
        &request.recipient,
        request.subject.as_str(),
        request.html_content.as_str(),
        request.text_content.as_str(),
    )
}

/// One email that an [`Outbox`] was asked to send, and whether it took it.
#[derive(Debug, PartialEq, Eq)]
pub struct Attempted {
    pub recipient: String,
    pub subject: String,
    pub html_content: String,
    pub text_content: String,
    pub delivered: bool,
}

impl View for Attempted {
    type V = Answered;

    open spec fn view(&self) -> Answered {
        Answered {
            request: EmailRequestView {
                recipient: self.recipient@,
                subject: self.subject@,
                html_content: self.html_content@,
                text_content: self.text_content@,
            },
            delivered: self.delivered,
        }
    }
}

impl DeepView for Attempted {
    type V = Answered;

    open spec fn deep_view(&self) -> Answered {
        self@
    }
}

/// A sender that delivers nothing outside the process. It keeps every
/// request it is asked, and refuses the recipients it was told to refuse.
#[derive(Debug, PartialEq, Eq)]
pub struct Outbox {
    refused: Vec<String>,
    attempts: Vec<Attempted>,
}

impl Outbox {
    /// The recipients that the outbox refuses.
    pub closed spec fn refused(&self) -> Seq<Seq<char>> {
        self.refused.deep_view()
    }

    /// An outbox that takes every email.
    pub fn new() -> (outbox: Outbox)
        ensures
            outbox.asked() == Seq::<Answered>::empty(),
            outbox.refused() == Seq::<Seq<char>>::empty(),
    {
        let outbox = Outbox { refused: Vec::new(), attempts: Vec::new() };
        assert(outbox.asked() =~= Seq::empty());
        assert(outbox.refused() =~= Seq::empty());
        outbox
    }

    /// An outbox that refuses the given recipients and takes every other
    /// email.
    pub fn refusing(recipients: Vec<String>) -> (outbox: Outbox)
        ensures
            outbox.asked() == Seq::<Answered>::empty(),
            outbox.refused() == recipients.deep_view(),
    {
        let outbox = Outbox { refused: recipients, attempts: Vec::new() };
        assert(outbox.asked() =~= Seq::empty());
        outbox
    }

    /// The emails that the outbox was asked to send, oldest first.
    pub fn attempts(&self) -> (attempts: &Vec<Attempted>)
        ensures
            attempts.deep_view() == self.asked(),
    {
        &self.attempts
    }

    /// Whether the outbox refuses a recipient.
    fn refuses(&self, recipient: &String) -> (refused: bool)
        ensures
            refused == self.refused().contains(recipient@),
    {
        let mut i: usize = 0;
        while i < self.refused.len()
            invariant
                i <= self.refused.len(),
                forall|j: int| 0 <= j < i ==> self.refused.deep_view()[j] != recipient@,
            decreases self.refused.len() - i,
        {
            if self.refused[i] == *recipient {
                assert(self.refused.deep_view()[i as int] == recipient@);
                return true;
            }
            i += 1;
        }
        false
    }
}

impl EmailSender for Outbox {
    closed spec fn asked(&self) -> Seq<Answered> {
        self.attempts.deep_view()
    }

    /// Keeps the request, and takes the email unless its recipient is one
    /// of those that the outbox refuses.
    fn send_email(
        &mut self,
        recipient: &SubscriberEmail,
        subject: &str,
        html_content: &str,
        text_content: &str,
    ) -> (answer: Result<(), TransportError>)
        ensures
            final(self).refused() == old(self).refused(),
            answer is Err <==> old(self).refused().contains(recipient@),
    {
        let ghost before = self.attempts.deep_view();
        let recipient = String::from_str(recipient.as_ref());
        let delivered = !self.refuses(&recipient);
        self.attempts.push(
            Attempted {
                recipient,
                subject: String::from_str(subject),
                html_content: String::from_str(html_content),
                text_content: String::from_str(text_content),
                delivered,
            },
        );
        assert(self.attempts.deep_view() =~= before.push(self.attempts[before.len() as int]@));
        if delivered {
            Ok(())
        } else {
            Err(TransportError)
        }
    }
}

} // verus!
