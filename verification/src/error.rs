use vstd::prelude::*;

verus! {

#[verifier::external_type_specification]
#[verifier::external_body]
pub struct ExIoError(std::io::Error);

#[verifier::external_type_specification]
#[verifier::external_body]
pub struct ExJsonError(serde_json::Error);

#[verifier::external_type_specification]
#[verifier::external_body]
pub struct ExHttpError(hyper::http::Error);

/// Errors of the Rhythmix service.
#[derive(Debug)]
pub enum RhythmixError {
    Io(std::io::Error),
    AudioDecoding(String),
    FftProcessing(String),
    InvalidConfig(String),
    FileTooLarge { max_size: usize, actual_size: usize },
    UnsupportedFileType(String),
    ThreadPool(String),
    Server(String),
    InvalidRequest(String),
    Serialization(serde_json::Error),
    Http(hyper::http::Error),
    Internal(String),
}

/// Result type of the Rhythmix operations.
pub type Result<T> = std::result::Result<T, RhythmixError>;

/// Checks an uploaded file's size against the largest size accepted.
pub fn validate_file_size(size: usize, max_size: usize) -> (res: Result<()>)
    ensures
        res is Ok <==> size <= max_size,
        res matches Err(e) ==> e == (RhythmixError::FileTooLarge { max_size, actual_size: size }),
{
    if size > max_size {
        return Err(RhythmixError::FileTooLarge { max_size, actual_size: size });
    }
    Ok(())
}


/// The HTTP status with which an error is answered.
pub open spec fn status_for(e: RhythmixError) -> u16 {
    match e {
        RhythmixError::InvalidRequest(_) => 400,
        RhythmixError::FileTooLarge { .. } => 413,
        RhythmixError::UnsupportedFileType(_) => 415,
        _ => 500,
    }
}

impl RhythmixError {
    /// The HTTP status with which this error is answered: a bad request, a
    /// payload too large, an unsupported media type, or an internal error.
    pub fn http_status(&self) -> (c: u16)
        ensures
            c == status_for(*self),
    {
        match self {
            RhythmixError::InvalidRequest(_) => 400,
            RhythmixError::FileTooLarge { .. } => 413,
            RhythmixError::UnsupportedFileType(_) => 415,
            _ => 500,
        }
    }
}

impl From<String> for RhythmixError {
    fn from(error: String) -> (r: Self) {
        RhythmixError::Internal(error)
    }
}

impl vstd::std_specs::convert::FromSpecImpl<String> for RhythmixError {
    open spec fn obeys_from_spec() -> bool {
        true
    }

    open spec fn from_spec(error: String) -> Self {
        RhythmixError::Internal(error)
    }
}

} // verus!
