//! Types of outside crates that the library carries without looking inside.
use vstd::prelude::*;

verus! {

/// `reqwest::Error`, carried opaquely.
#[verifier::external_type_specification]
#[verifier::external_body]
pub struct ExReqwestError(reqwest::Error);

/// `url::ParseError`, carried opaquely.
#[verifier::external_type_specification]
#[verifier::external_body]
pub struct ExUrlParseError(url::ParseError);

/// `quick_xml::DeError`, carried opaquely.
#[verifier::external_type_specification]
#[verifier::external_body]
pub struct ExXmlDeError(quick_xml::DeError);

/// `chrono::ParseError`, carried opaquely.
#[verifier::external_type_specification]
#[verifier::external_body]
pub struct ExChronoParseError(chrono::ParseError);

} // verus!
