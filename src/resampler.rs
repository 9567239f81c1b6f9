use av_data::value::Value;
use vstd::prelude::*;

use crate::sample::SampleType;

verus! {

/// An option value as the multimedia data crate defines it; carried through unread.
#[verifier::external_type_specification]
#[verifier::external_body]
pub struct ExValue<'a>(Value<'a>);

/// What a sample-rate converter may report.
#[derive(Debug, PartialEq, Eq)]
pub enum Error {
    /// The input is malformed.
    InvalidData,
    /// More input is needed before output can be produced.
    MoreDataNeeded,
    /// Required options have not been set.
    ConfigurationIncomplete,
    /// The options set do not form a valid configuration.
    ConfigurationInvalid,
    /// The named feature is not supported.
    Unsupported(String),
}

/// A sample-rate converter: configured by key/value options, fed planar
/// samples, drained into caller buffers and flushed at the end of a stream.
pub trait Resampler<S: SampleType> {
    /// Applies the options set so far.
    fn configure(&mut self) -> Result<(), Error>;

    /// Records one option by name.
    fn set_option<'a>(&mut self, key: &str, val: Value<'a>) -> Result<(), Error>;

    /// Takes input samples; returns how many were consumed.
    fn send(&mut self, buf: &[S]) -> Result<usize, Error>;

    /// Writes converted samples into `buf`; returns how many were written.
    fn receive(&mut self, buf: &mut [S]) -> Result<usize, Error>;

    /// Releases whatever state is held back at the end of a stream.
    fn flush(&mut self) -> Result<(), Error>;
}

} // verus!
