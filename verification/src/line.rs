//! Messages to the LINE Messaging API.
use vstd::prelude::*;

verus! {

/// Where a message is pushed.
pub const LINE_PUSH_URL: &'static str = "https://api.line.me/v2/bot/message/push";

/// The kind of a message that is plain text.
pub const TEXT_MESSAGE: &'static str = "text";

/// One message.
#[derive(Debug)]
pub struct LineMessage {
    pub message_type: &'static str,
    pub text: String,
}

/// The body of a push: the recipient and one message.
#[derive(Debug)]
pub struct LinePushRequest {
    pub to: String,
    pub messages: [LineMessage; 1],
}

/// What a request says: the recipient, the kind of the message and its text.
pub struct PushView {
    pub to: Seq<char>,
    pub message_type: Seq<char>,
    pub text: Seq<char>,
}

impl View for LinePushRequest {
    type V = PushView;

    open spec fn view(&self) -> PushView {
        PushView {
            to: self.to@,
            message_type: self.messages@[0].message_type@,
            text: self.messages@[0].text@,
        }
    }
}

/// The request that pushes `text`, as plain text, to `target`.
pub open spec fn plain_push(target: Seq<char>, text: Seq<char>) -> PushView {
    PushView { to: target, message_type: TEXT_MESSAGE@, text }
}

/// Makes the request that pushes `text`, as plain text, to `target`.
pub fn push_request(target: String, text: String) -> (r: LinePushRequest)
    ensures
        r@ == plain_push(target@, text@),
        r.to@ == target@,
        r.messages@.len() == 1,
        r.messages@[0].message_type@ == "text"@,
        r.messages@[0].text@ == text@,
{
    LinePushRequest { to: target, messages: [LineMessage { message_type: TEXT_MESSAGE, text }] }
}

/// The HTTP status reports success.
pub open spec fn is_success(status: u16) -> bool {
    200 <= status < 300
}

/// Tells whether a reply with the given HTTP status reports success.
pub fn accepted(status: u16) -> (r: bool)
    ensures
        r == is_success(status),
        r == (200 <= status <= 299),
{
    200 <= status && status < 300
}

/// Judges the reply to a push. `status_text` is the status as a reader would see it; a failure
/// quotes it and the reply's body.
pub fn push_outcome(status: u16, status_text: &str, body: &str) -> (r: Result<(), String>)
    ensures
        match r {
            Ok(_) => is_success(status),
            Err(reason) => {
                &&& !is_success(status)
                &&& reason@ == "LINE push failed: "@ + status_text@ + " — "@ + body@
            },
        },
        r is Ok <==> 200 <= status <= 299,
{
    if accepted(status) {
        Ok(())
    } else {
        let mut reason: String = "LINE push failed: ".to_owned();
        reason.append(status_text);
        reason.append(" — ");
        reason.append(body);
        Err(reason)
    }
}

/// A request's view says its recipient, and the kind and the text of its only message.
pub proof fn law_view_of_a_request(request: LinePushRequest)
    ensures
        request@.to == request.to@,
        request.messages@.len() == 1,
        request@.message_type == request.messages@[0].message_type@,
        request@.text == request.messages@[0].text@,
{
}

/// A plain push goes to the given recipient, says the given text and nothing else, and calls
/// itself text; so different recipients or texts make different pushes.
pub proof fn law_plain_push_says_what_it_is_given(
    target: Seq<char>,
    text: Seq<char>,
    other_target: Seq<char>,
    other_text: Seq<char>,
)
    ensures
        plain_push(target, text).to == target,
        plain_push(target, text).text == text,
        plain_push(target, text).message_type == "text"@,
        plain_push(target, text) == plain_push(other_target, other_text) ==> target
            == other_target && text == other_text,
{
}

/// Success is the two hundreds.
pub proof fn law_success_is_the_two_hundreds(status: u16)
    ensures
        is_success(status) <==> status / 100 == 2,
{
}

} // verus!
