//! Decoding of the subscription form.
//!
//! A form arrives as `application/x-www-form-urlencoded` text: a list of
//! key/value pairs. The subscription form asks for the keys `email` and `name`,
//! each once; pairs under other keys are passed over. The order of the pairs
//! does not matter to a form that decodes, only to which fault is reported of
//! one that does not.

use crate::routes::subscriptions::{FormData, FormDataView};
use vstd::prelude::*;

verus! {

/// A field that the subscription form must hold.
#[derive(Clone, Copy, Debug, PartialEq, Eq, Structural)]
pub enum Field {
    Email,
    Name,
}

/// Why a list of pairs is no subscription form.
#[derive(Clone, Copy, Debug, PartialEq, Eq, Structural)]
pub enum DecodeError {
    /// No pair stands under the field's key.
    MissingField(Field),
    /// A second pair stands under the field's key.
    DuplicateField(Field),
}

/// Decoded key/value pairs, in the order in which the body holds them.
pub type Pairs = Seq<(Seq<char>, Seq<char>)>;

impl Field {
    /// The key under which the field stands in a form.
    pub open spec fn key(self) -> Seq<char> {
        match self {
            Field::Email => "email"@,
            Field::Name => "name"@,
        }
    }

    /// The field's key as text.
    pub fn name(self) -> (s: &'static str)
        ensures
            s@ == self.key(),
    {
        match self {
            Field::Email => "email",
            Field::Name => "name",
        }
    }
}

/// The pair at position `i` stands under the key of `field`.
pub open spec fn names(pairs: Pairs, i: int, field: Field) -> bool {
    0 <= i < pairs.len() && pairs[i].0 == field.key()
}

/// Some pair stands under the key of `field`.
pub open spec fn has_field(pairs: Pairs, field: Field) -> bool {
    exists|i: int| names(pairs, i, field)
}

/// The pair at position `i` is the only one under the key of `field`.
pub open spec fn names_once(pairs: Pairs, i: int, field: Field) -> bool {
    names(pairs, i, field) && forall|k: int| names(pairs, k, field) ==> k == i
}

/// The pair at position `j` stands under the key of `field`, and so does an
/// earlier one.
pub open spec fn repeats(pairs: Pairs, j: int, field: Field) -> bool {
    names(pairs, j, field) && exists|i: int| i < j && names(pairs, i, field)
}

/// No pair stands under a key that an earlier pair stands under, as far as the
/// keys of the two fields go.
pub open spec fn no_repeat(pairs: Pairs) -> bool {
    forall|k: int, field: Field| !repeats(pairs, k, field)
}

/// Position `j` is the earliest at which a field's key comes for the second
/// time, and the field is `field`.
pub open spec fn first_repeat(pairs: Pairs, j: int, field: Field) -> bool {
    repeats(pairs, j, field) && forall|k: int, other: Field| k < j ==> !repeats(pairs, k, other)
}

/// Of the fields whose key comes twice, `field` is the one whose second pair
/// comes first.
pub open spec fn repeated_first(pairs: Pairs, field: Field) -> bool {
    exists|j: int| first_repeat(pairs, j, field)
}

/// The text of a pair that stands under the key of `field`. Where no key
/// repeats there is one such pair at most.
pub open spec fn value_of(pairs: Pairs, field: Field) -> Seq<char> {
    pairs[choose|i: int| names(pairs, i, field)].1
}

/// The form that a list of pairs decodes to, or the fault that is reported of it.
///
/// A repeated field is reported before a missing one, and of two missing
/// fields `email` is the one reported.
pub open spec fn decoded(pairs: Pairs) -> Result<FormDataView, DecodeError> {
    if repeated_first(pairs, Field::Email) {
        Err(DecodeError::DuplicateField(Field::Email))
    } else if repeated_first(pairs, Field::Name) {
        Err(DecodeError::DuplicateField(Field::Name))
    } else if !has_field(pairs, Field::Email) {
        Err(DecodeError::MissingField(Field::Email))
    } else if !has_field(pairs, Field::Name) {
        Err(DecodeError::MissingField(Field::Name))
    } else {
        Ok(
            FormDataView {
                email: value_of(pairs, Field::Email),
                name: value_of(pairs, Field::Name),
            },
        )
    }
}

/// What a decoding returned, with the form taken by its value.
pub open spec fn outcome(r: Result<FormData, DecodeError>) -> Result<FormDataView, DecodeError> {
    match r {
        Ok(form) => Ok(form@),
        Err(e) => Err(e),
    }
}

/// The pairs that a form body holds, in the order in which it holds them, each
/// key and each text with `+` and percent escapes resolved: what
/// `form_urlencoded::parse` yields of the body.
pub uninterp spec fn form_pairs(body: Seq<u8>) -> Seq<(Seq<char>, Seq<char>)>;

/// Reads the pairs of a form body with `form_urlencoded::parse`, and collects
/// them as owned strings. Trusted: the result is taken to be the value of
/// [`form_pairs`] on the body, which says that equal bodies hold equal pairs and
/// nothing of what the pairs are.
#[verifier::external_body]
fn parse_pairs(body: &[u8]) -> (pairs: Vec<(String, String)>)
    ensures
        pairs.deep_view() == form_pairs(body@),
{
    form_urlencoded::parse(body).into_owned().collect()
}

impl FormData {
    /// Decodes a subscription form from the pairs of a form body.
    pub fn from_pairs(pairs: &[(String, String)]) -> (r: Result<FormData, DecodeError>)
        ensures
            outcome(r) == decoded(pairs.deep_view()),
    {
        let ghost all = pairs.deep_view();
        let email_key = Field::Email.name().to_owned();
        let name_key = Field::Name.name().to_owned();
        let mut email: Option<String> = None;
        let mut name: Option<String> = None;
        let ghost mut email_at: int = 0;
        let ghost mut name_at: int = 0;
        let mut i: usize = 0;
        while i < pairs.len()
            invariant
                i <= pairs.len(),
                all == pairs.deep_view(),
                email_key@ == Field::Email.key(),
                name_key@ == Field::Name.key(),
                forall|k: int, field: Field| k < i ==> !repeats(all, k, field),
                email is None ==> forall|k: int| k < i ==> !names(all, k, Field::Email),
                email is Some ==> email_at < i && names(all, email_at, Field::Email)
                    && email.unwrap()@ == all[email_at].1,
                name is None ==> forall|k: int| k < i ==> !names(all, k, Field::Name),
                name is Some ==> name_at < i && names(all, name_at, Field::Name)
                    && name.unwrap()@ == all[name_at].1,
            decreases pairs.len() - i,
        {
            let pair = &pairs[i];
            proof {
                lemma_keys_differ();
                assert(all[i as int] == (pair.0@, pair.1@));
            }
            if pair.0 == email_key {
                if email.is_some() {
                    proof {
                        assert(first_repeat(all, i as int, Field::Email));
                    }
                    return Err(DecodeError::DuplicateField(Field::Email));
                }
                email = Some(pair.1.clone());
                proof {
                    email_at = i as int;
                }
            } else if pair.0 == name_key {
                if name.is_some() {
                    proof {
                        assert(first_repeat(all, i as int, Field::Name));
                        assert forall|j: int| !first_repeat(all, j, Field::Email) by {
                            if first_repeat(all, j, Field::Email) {
                                lemma_first_repeat_unique(
                                    all,
                                    j,
                                    Field::Email,
                                    i as int,
                                    Field::Name,
                                );
                            }
                        }
                    }
                    return Err(DecodeError::DuplicateField(Field::Name));
                }
                name = Some(pair.1.clone());
                proof {
                    name_at = i as int;
                }
            }
            i += 1;
        }
        match (email, name) {
            (Some(email), Some(name)) => {
                proof {
                    lemma_value_of_unique(all, email_at, Field::Email);
                    lemma_value_of_unique(all, name_at, Field::Name);
                }
                Ok(FormData { email, name })
            },
            (None, _) => Err(DecodeError::MissingField(Field::Email)),
            (Some(_), None) => Err(DecodeError::MissingField(Field::Name)),
        }
    }

    /// Decodes a subscription form from a form body.
    pub fn decode(body: &[u8]) -> (r: Result<FormData, DecodeError>)
        ensures
            outcome(r) == decoded(form_pairs(body@)),
    {
        let pairs = parse_pairs(body);
        let listed = pairs.as_slice();
        assert(listed.deep_view() =~= pairs.deep_view());
        FormData::from_pairs(listed)
    }
}

/// A form that lacks a field does not decode, whatever else it holds.
pub proof fn lemma_missing_field_is_rejected(pairs: Pairs, field: Field)
    requires
        !has_field(pairs, field),
    ensures
        decoded(pairs) is Err,
{
}

/// A form in which no key repeats and a field is missing is reported as
/// missing that field, `email` before `name`.
pub proof fn lemma_missing_field_is_named(pairs: Pairs)
    requires
        no_repeat(pairs),
        !has_field(pairs, Field::Email) || !has_field(pairs, Field::Name),
    ensures
        decoded(pairs) == Err::<FormDataView, DecodeError>(
            DecodeError::MissingField(
                if has_field(pairs, Field::Email) {
                    Field::Name
                } else {
                    Field::Email
                },
            ),
        ),
{
}

/// A form decodes if and only if each of the two keys stands in it once.
pub proof fn lemma_decodes_iff_each_field_once(pairs: Pairs)
    ensures
        decoded(pairs) is Ok <==> (exists|i: int| names_once(pairs, i, Field::Email)) && (exists|
            j: int,
        | names_once(pairs, j, Field::Name)),
{
    if decoded(pairs) is Ok {
        assert forall|k: int, field: Field| !repeats(pairs, k, field) by {
            if repeats(pairs, k, field) {
                lemma_repeat_has_first(pairs, k, field);
            }
        }
        let i = choose|i: int| names(pairs, i, Field::Email);
        assert forall|k: int| names(pairs, k, Field::Email) implies k == i by {
            if k < i {
                assert(repeats(pairs, i, Field::Email));
            }
            if i < k {
                assert(repeats(pairs, k, Field::Email));
            }
        }
        assert(names_once(pairs, i, Field::Email));
        let j = choose|j: int| names(pairs, j, Field::Name);
        assert forall|k: int| names(pairs, k, Field::Name) implies k == j by {
            if k < j {
                assert(repeats(pairs, j, Field::Name));
            }
            if j < k {
                assert(repeats(pairs, k, Field::Name));
            }
        }
        assert(names_once(pairs, j, Field::Name));
    }
    if (exists|i: int| names_once(pairs, i, Field::Email)) && (exists|j: int|
        names_once(pairs, j, Field::Name)) {
        let i = choose|i: int| names_once(pairs, i, Field::Email);
        let j = choose|j: int| names_once(pairs, j, Field::Name);
        lemma_decoded_form(pairs, i, j);
    }
}

/// A form in which each key stands once decodes to the texts under the two
/// keys, wherever the two pairs stand and whatever the texts are.
pub proof fn lemma_decoded_form(pairs: Pairs, i: int, j: int)
    requires
        names_once(pairs, i, Field::Email),
        names_once(pairs, j, Field::Name),
    ensures
        decoded(pairs) == Ok::<FormDataView, DecodeError>(
            FormDataView { email: pairs[i].1, name: pairs[j].1 },
        ),
{
    lemma_keys_differ();
    assert forall|k: int, field: Field| !repeats(pairs, k, field) by {
        if repeats(pairs, k, field) {
            let earlier = choose|e: int| e < k && names(pairs, e, field);
            match field {
                Field::Email => {
                    assert(k == i && earlier == i);
                },
                Field::Name => {
                    assert(k == j && earlier == j);
                },
            }
        }
    }
    lemma_value_of_unique(pairs, i, Field::Email);
    lemma_value_of_unique(pairs, j, Field::Name);
}

/// The two keys differ.
pub proof fn lemma_keys_differ()
    ensures
        Field::Email.key() != Field::Name.key(),
{
    reveal_strlit("email");
    reveal_strlit("name");
    assert(Field::Email.key().len() != Field::Name.key().len());
}

/// A position names one field at most.
pub proof fn lemma_names_one_field(pairs: Pairs, i: int, a: Field, b: Field)
    requires
        names(pairs, i, a),
        names(pairs, i, b),
    ensures
        a == b,
{
    lemma_keys_differ();
}

/// The earliest repeat is one position and one field.
pub proof fn lemma_first_repeat_unique(pairs: Pairs, i: int, a: Field, j: int, b: Field)
    requires
        first_repeat(pairs, i, a),
        first_repeat(pairs, j, b),
    ensures
        i == j,
        a == b,
{
    if i < j {
        assert(!repeats(pairs, i, a));
    }
    if j < i {
        assert(!repeats(pairs, j, b));
    }
    lemma_names_one_field(pairs, i, a, b);
}

/// Where no key repeats, the text of a field is that of the one pair under its key.
pub proof fn lemma_value_of_unique(pairs: Pairs, i: int, field: Field)
    requires
        no_repeat(pairs),
        names(pairs, i, field),
    ensures
        value_of(pairs, field) == pairs[i].1,
{
    let c = choose|c: int| names(pairs, c, field);
    if c < i {
        assert(repeats(pairs, i, field));
    }
    if i < c {
        assert(repeats(pairs, c, field));
    }
}

/// Where a key repeats at all, some repeat is the earliest.
pub proof fn lemma_repeat_has_first(pairs: Pairs, k: int, field: Field)
    requires
        repeats(pairs, k, field),
    ensures
        repeated_first(pairs, Field::Email) || repeated_first(pairs, Field::Name),
    decreases k,
{
    if forall|j: int, other: Field| j < k ==> !repeats(pairs, j, other) {
        assert(first_repeat(pairs, k, field));
    } else {
        let (j, other) = choose|j: int, other: Field| j < k && repeats(pairs, j, other);
        lemma_repeat_has_first(pairs, j, other);
    }
}

} // verus!
