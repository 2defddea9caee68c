//! Identifier and string wrapper types of the shapes the primitives use: a
//! UUID identifier, a validated string and a plain string wrapper.

use vstd::prelude::*;
use crate::ids::{is_random_uuid, uuid_new_v4_bits, uuid_parse_str, uuid_text, uuid_text_value, uuid_to_string};
use crate::text::{concat3, contains_char, chars_of, owned};

verus! {

/// A test user identifier: a UUID.
#[derive(Debug, Clone, Copy, PartialEq, Eq, Hash)]
pub struct TestUserId(u128);

impl View for TestUserId {
    type V = u128;

    closed spec fn view(&self) -> u128 {
        self.0
    }
}

impl TestUserId {
    /// A fresh random identifier.
    pub fn new() -> (res: TestUserId)
        ensures
            is_random_uuid(res@),
    {
        TestUserId(uuid_new_v4_bits())
    }

    /// Parses the textual form of a UUID.
    pub fn parse(s: &str) -> (res: Result<TestUserId, uuid::Error>)
        ensures
            res is Ok <==> uuid_text_value(s@) is Some,
            res matches Ok(id) ==> uuid_text_value(s@) == Some(id@),
    {
        match uuid_parse_str(s) {
            Ok(v) => Ok(TestUserId(v)),
            Err(e) => Err(e),
        }
    }

    /// The identifier's 128 bits.
    pub fn as_u128(&self) -> (res: u128)
        ensures
            res == self@,
    {
        self.0
    }

    /// The identifier with the given 128 bits.
    pub fn from_u128(v: u128) -> (res: TestUserId)
        ensures
            res@ == v,
    {
        TestUserId(v)
    }

    /// The hyphenated textual form; parsing it gives back this identifier.
    pub fn to_string(&self) -> (res: String)
        ensures
            res@ == uuid_text(self@),
            uuid_text_value(res@) == Some(self@),
    {
        uuid_to_string(self.0)
    }
}

/// An email address for tests: any string with an `@`.
#[derive(Debug, Clone, PartialEq, Eq, Hash)]
pub struct TestEmail(String);

impl View for TestEmail {
    type V = Seq<char>;

    closed spec fn view(&self) -> Seq<char> {
        self.0@
    }
}

impl TestEmail {
    /// Accepts strings that contain `@`; else `Invalid TestEmail: '<value>'`.
    pub fn new(value: &str) -> (res: Result<TestEmail, String>)
        ensures
            value@.contains('@') ==> (res matches Ok(e) && e@ == value@),
            !value@.contains('@') ==> (res matches Err(m) && m@ == "Invalid TestEmail: '"@ + value@ + "'"@),
    {
        let v = chars_of(value);
        if contains_char(&v, '@') {
            Ok(TestEmail(owned(value)))
        } else {
            Err(concat3("Invalid TestEmail: '", value, "'"))
        }
    }

    /// Wraps a string without checking it.
    pub fn new_unchecked(value: String) -> (res: TestEmail)
        ensures
            res@ == value@,
    {
        TestEmail(value)
    }

    /// The address.
    pub fn as_str(&self) -> (res: &str)
        ensures
            res@ == self@,
    {
        self.0.as_str()
    }

    /// The address, unwrapped.
    pub fn into_inner(self) -> (res: String)
        ensures
            res@ == self@,
    {
        self.0
    }

    /// The address, as displayed.
    pub fn to_string(&self) -> (res: String)
        ensures
            res@ == self@,
    {
        self.0.clone()
    }
}

/// A password for tests: any string.
#[derive(Debug, Clone, PartialEq, Eq, Hash)]
pub struct TestPassword(String);

impl View for TestPassword {
    type V = Seq<char>;

    closed spec fn view(&self) -> Seq<char> {
        self.0@
    }
}

impl TestPassword {
    /// Wraps a string.
    pub fn new(value: &str) -> (res: TestPassword)
        ensures
            res@ == value@,
    {
        TestPassword(owned(value))
    }

    /// The password.
    pub fn as_str(&self) -> (res: &str)
        ensures
            res@ == self@,
    {
        self.0.as_str()
    }

    /// The password, unwrapped.
    pub fn into_inner(self) -> (res: String)
        ensures
            res@ == self@,
    {
        self.0
    }

    /// The password, as displayed.
    pub fn to_string(&self) -> (res: String)
        ensures
            res@ == self@,
    {
        self.0.clone()
    }
}

} // verus!
