//! Annotations that can be pinned to a cell.

use std::any::Any;
use std::rc::Rc;
use vstd::prelude::*;
use vstd::std_specs::cmp::{PartialEqSpec, PartialEqSpecImpl};
use crate::tile::{Content, TileType};

verus! {

/// A caller's own payload together with the token that identifies it.
///
/// Two custom pins are the same pin exactly when their tokens are equal; what
/// the payloads hold plays no part.
#[derive(Debug)]
pub struct CustomPin {
    token: u64,
    payload: Payload,
}

/// A shared value of a type known only to whoever made it.
#[verifier::external_body]
#[derive(Debug)]
pub struct Payload {
    inner: Rc<dyn Any>,
}

/// Moves `value` behind a new shared handle, with [`Rc`]'s `new`.
#[verifier::external_body]
fn payload_new<T: 'static>(value: T) -> Payload {
    Payload { inner: Rc::new(value) }
}

/// Makes another handle on the same value, with [`Rc`]'s `clone`: the new
/// handle stands for the very value that the old one stands for.
#[verifier::external_body]
fn payload_share(payload: &Payload) -> (r: Payload)
    ensures
        r == *payload,
{
    Payload { inner: Rc::clone(&payload.inner) }
}

/// Hands the value out as a `T` with [`Rc`]'s `downcast`, which succeeds
/// when the value is of that type. Nothing is claimed of which way it goes.
#[verifier::external_body]
fn payload_downcast<T: 'static>(payload: Payload) -> Option<Rc<T>> {
    payload.inner.downcast::<T>().ok()
}

impl Payload {
    /// Wraps `value` as a payload.
    pub fn new<T: 'static>(value: T) -> Payload {
        payload_new(value)
    }
}

impl Clone for Payload {
    /// The copy is another handle on the same value.
    fn clone(&self) -> (r: Payload)
        ensures
            r == *self,
    {
        payload_share(self)
    }
}

/// Every kind of pin.
#[derive(Debug)]
pub enum BobPinTypes {
    I32(i32),
    String(String),
    TileType(TileType),
    Contents(Content),
    City,
    Bank(usize),
    Market,
    /// A pin of the caller's own making. What comes back out is of no known
    /// type: [`bob_type_check`] recovers it.
    Custom(CustomPin),
}

/// What a pin is, as far as equality goes.
pub enum PinKey {
    I32(i32),
    Text(Seq<char>),
    TileType(TileType),
    Contents(Content),
    City,
    Bank(usize),
    Market,
    Custom(u64),
}

impl CustomPin {
    /// The token that identifies this pin.
    pub closed spec fn id(&self) -> u64 {
        self.token
    }

    /// The payload that this pin carries.
    pub closed spec fn carried(&self) -> Payload {
        self.payload
    }

    /// Returns another handle on the payload.
    pub fn payload(&self) -> (r: Payload)
        ensures
            r == self.carried(),
    {
        self.payload.clone()
    }

    /// Returns the token that identifies this pin.
    pub fn token(&self) -> (t: u64)
        ensures
            t == self.id(),
    {
        self.token
    }
}

impl Clone for CustomPin {
    /// The copy shares the payload and carries the same token.
    fn clone(&self) -> (r: Self)
        ensures
            r == *self,
    {
        CustomPin { token: self.token, payload: self.payload.clone() }
    }
}

impl Clone for BobPinTypes {
    /// The copy is the same pin, with the same payload where it has one.
    fn clone(&self) -> (r: Self)
        ensures
            r == *self,
    {
        match self {
            BobPinTypes::I32(v) => BobPinTypes::I32(*v),
            BobPinTypes::String(s) => BobPinTypes::String(s.clone()),
            BobPinTypes::TileType(t) => BobPinTypes::TileType(*t),
            BobPinTypes::Contents(c) => BobPinTypes::Contents(*c),
            BobPinTypes::City => BobPinTypes::City,
            BobPinTypes::Bank(v) => BobPinTypes::Bank(*v),
            BobPinTypes::Market => BobPinTypes::Market,
            BobPinTypes::Custom(c) => BobPinTypes::Custom(c.clone()),
        }
    }
}

impl View for BobPinTypes {
    type V = PinKey;

    open spec fn view(&self) -> PinKey {
        match self {
            BobPinTypes::I32(v) => PinKey::I32(*v),
            BobPinTypes::String(s) => PinKey::Text(s@),
            BobPinTypes::TileType(t) => PinKey::TileType(*t),
            BobPinTypes::Contents(c) => PinKey::Contents(*c),
            BobPinTypes::City => PinKey::City,
            BobPinTypes::Bank(v) => PinKey::Bank(*v),
            BobPinTypes::Market => PinKey::Market,
            BobPinTypes::Custom(c) => PinKey::Custom(c.id()),
        }
    }
}

impl PartialEq for BobPinTypes {
    fn eq(&self, other: &Self) -> (r: bool) {
        match (self, other) {
            (BobPinTypes::Market, BobPinTypes::Market) => true,
            (BobPinTypes::City, BobPinTypes::City) => true,
            (BobPinTypes::I32(a), BobPinTypes::I32(b)) => *a == *b,
            (BobPinTypes::String(a), BobPinTypes::String(b)) => *a == *b,
            (BobPinTypes::TileType(a), BobPinTypes::TileType(b)) => *a == *b,
            (BobPinTypes::Contents(a), BobPinTypes::Contents(b)) => *a == *b,
            (BobPinTypes::Bank(a), BobPinTypes::Bank(b)) => *a == *b,
            (BobPinTypes::Custom(a), BobPinTypes::Custom(b)) => a.token() == b.token(),
            (_, _) => false,
        }
    }
}

impl PartialEqSpecImpl for BobPinTypes {
    open spec fn obeys_eq_spec() -> bool {
        true
    }

    open spec fn eq_spec(&self, other: &Self) -> bool {
        self@ == other@
    }
}

impl Eq for BobPinTypes {

}

/// Recovers the type of a custom pin's payload: `Ok` with the payload as a
/// `T` when it holds one, and `Err` otherwise.
pub fn bob_type_check<T: 'static>(to_check: Payload) -> (r: Result<Rc<T>, ()>) {
    // The downcast alone decides; the answer follows from what it gave.
    let found: Option<Rc<T>> = payload_downcast::<T>(to_check);
    let answer: Result<Rc<T>, ()> = type_check_outcome(found);
    answer
}

/// Issues the tokens that tell custom pins apart: each token once.
#[derive(Debug)]
pub struct PinTokens {
    next: u64,
}

impl PinTokens {
    /// The tokens issued so far.
    pub closed spec fn issued(&self) -> Set<u64> {
        Set::new(|t: u64| t < self.next)
    }

    /// Whether every token has been issued.
    pub closed spec fn exhausted(&self) -> bool {
        self.next == u64::MAX
    }

    /// Starts with no token issued.
    pub fn new() -> (r: PinTokens)
        ensures
            r.issued() == Set::<u64>::empty(),
            !r.exhausted(),
    {
        let r = PinTokens { next: 0 };
        r
    }

    /// Makes a custom pin round `payload` under a token that no pin from
    /// these tokens carries yet, or `None` once every token has been issued.
    ///
    /// Two pins made by two calls are different pins, whatever their payloads
    /// hold; a pin and its copies are the same pin.
    pub fn custom(&mut self, payload: Payload) -> (r: Option<BobPinTypes>)
        ensures
            r is Some <==> !old(self).exhausted(),
            match r {
                Some(pin) => pin matches BobPinTypes::Custom(custom) && custom.carried() == payload
                    && !old(self).issued().contains(custom.id()) && final(self).issued()
                    == old(self).issued().insert(custom.id()),
                None => *final(self) == *old(self),
            },
    {
        if self.next == u64::MAX {
            return None;
        }
        let token: u64 = self.next;
        self.next = token + 1;
        Some(BobPinTypes::Custom(CustomPin { token, payload }))
    }
}

/// Pins are equal exactly when they are the same kind of pin with the same
/// value; for custom pins the value is the token and nothing else.
pub proof fn lemma_pin_equality(a: BobPinTypes, b: BobPinTypes)
    ensures
        PartialEqSpec::eq_spec(&a, &b) <==> a@ == b@,
        PartialEqSpec::eq_spec(&a, &a),
        PartialEqSpec::eq_spec(&a, &b) ==> PartialEqSpec::eq_spec(&b, &a),
        a is Custom && b is Custom ==> (PartialEqSpec::eq_spec(&a, &b) <==> a->Custom_0.id()
            == b->Custom_0.id()),
{
}

/// Turns what a downcast gave into the answer of the type check: the value
/// where there is one, and an error where there is none.
pub fn type_check_outcome<T>(found: Option<Rc<T>>) -> (r: Result<Rc<T>, ()>)
    ensures
        r == match found {
            Some(val) => Ok::<Rc<T>, ()>(val),
            None => Err::<Rc<T>, ()>(()),
        },
{
    match found {
        Some(val) => Ok(val),
        None => Err(()),
    }
}

} // verus!
