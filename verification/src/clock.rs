//! The time of a checkpoint.
use crate::json::{
    as_float, float_zero, is_seconds, json_of, natural_value, seconds_bits, seconds_value, Json,
    JsonNumber,
};
use serde_json::Value;
use vstd::prelude::*;

verus! {

/// `std::time::SystemTime`, opaque here.
#[verifier::external_type_specification]
#[verifier::external_body]
pub struct ExSystemTime(std::time::SystemTime);

/// `std::time::SystemTimeError`, opaque here.
#[verifier::external_type_specification]
#[verifier::external_body]
pub struct ExSystemTimeError(std::time::SystemTimeError);

/// `std::time::SystemTime::now` reads the clock. Nothing is stated of the time
/// that it gives.
pub assume_specification[ std::time::SystemTime::now ]() -> std::time::SystemTime
;

/// `std::time::SystemTime::duration_since` on the Unix epoch: how long ago that
/// was, or an error where the time lies before it. Neither is stated.
#[verifier::external_body]
fn since_epoch(time: std::time::SystemTime) -> Result<
    std::time::Duration,
    std::time::SystemTimeError,
> {
    time.duration_since(std::time::UNIX_EPOCH)
}

/// The float zero.
pub fn zero() -> (value: Value)
    ensures
        json_of(value) == float_zero(),
{
    as_float(&natural_value(0)).unwrap()
}

/// The seconds that have passed since the Unix epoch, and zero where the time lies
/// before it.
pub fn timestamp(
    passed: Result<std::time::Duration, std::time::SystemTimeError>,
) -> (value: Value)
    ensures
        json_of(value) == match passed {
            Ok(length) => Json::Number(JsonNumber::Float(seconds_bits(length))),
            Err(_) => float_zero(),
        },
        is_seconds(json_of(value)),
{
    match passed {
        Ok(length) => seconds_value(length),
        Err(_) => zero(),
    }
}

/// The time now, in seconds since the Unix epoch. The clock decides which number it
/// is.
pub fn now() -> (value: Value)
    ensures
        is_seconds(json_of(value)),
{
    timestamp(since_epoch(std::time::SystemTime::now()))
}

} // verus!
