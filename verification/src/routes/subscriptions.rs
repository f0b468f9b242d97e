//! The subscription endpoint.

use crate::form::{decoded, names_once, lemma_decoded_form, Field, Pairs};
use crate::response::{Response, ResponseView};
use vstd::prelude::*;

verus! {

/// A decoded subscription form. It lives for one request; nothing is required of
/// either text, the empty string included.
#[derive(Clone, Debug, PartialEq, Eq)]
pub struct FormData {
    pub email: String,
    pub name: String,
}

/// The mathematical value of a [`FormData`].
pub struct FormDataView {
    pub email: Seq<char>,
    pub name: Seq<char>,
}

impl View for FormData {
    type V = FormDataView;

    open spec fn view(&self) -> FormDataView {
        FormDataView { email: self.email@, name: self.name@ }
    }
}

/// What the subscription endpoint answers to a decoded form: the bare success
/// response, whatever the form holds.
pub open spec fn subscribe_response(form: FormDataView) -> ResponseView {
    ResponseView::ok_empty()
}

/// Answers a subscription request whose form was decoded. The form is neither
/// validated nor kept.
pub fn subscribe(form: FormData) -> (r: Response)
    ensures
        r@ == subscribe_response(form@),
        r@ == ResponseView::ok_empty(),
        r@.is_success(),
{
    let _ = form;
    Response::ok()
}

/// Two calls of the subscription handler on equal forms answer alike: the
/// handler keeps nothing between calls.
pub proof fn lemma_subscribe_repeatable(first: FormData, second: FormData)
    requires
        first@ == second@,
    ensures
        subscribe_response(first@) == subscribe_response(second@),
{
}

/// The subscription handler answers with status 200 and an empty body whether
/// the texts of the form are empty or not: nothing is validated.
pub proof fn lemma_subscribe_accepts_any_text(form: FormData)
    ensures
        subscribe_response(form@).is_success(),
        subscribe_response(form@).status == 200,
        subscribe_response(form@).body.len() == 0,
        subscribe_response(form@).content_type is None,
{
}

/// A request whose form holds each of the two keys once reaches the handler
/// with the texts under them, and is answered with status 200 and an empty
/// body, whether those texts are empty or not.
pub proof fn lemma_whole_form_is_answered(pairs: Pairs, i: int, j: int)
    requires
        names_once(pairs, i, Field::Email),
        names_once(pairs, j, Field::Name),
    ensures
        decoded(pairs) is Ok,
        decoded(pairs).unwrap() == (FormDataView { email: pairs[i].1, name: pairs[j].1 }),
        subscribe_response(decoded(pairs).unwrap()) == ResponseView::ok_empty(),
        subscribe_response(decoded(pairs).unwrap()).is_success(),
{
    lemma_decoded_form(pairs, i, j);
}

} // verus!
