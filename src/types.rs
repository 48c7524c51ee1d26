use vstd::prelude::*;

verus! {

/// Measurement values are fixed-point numbers: one point is this many units,
/// so a value of `v` units stands for `v / UNITS_PER_POINT` points.
pub const UNITS_PER_POINT: i64 = 1_000_000;

/// The top of the normalized range, 100 points, in units.
pub const FULL_SCALE: i64 = 100_000_000;

/// One measurement: a keyword and its intensity in units.
pub type Measurement = (String, i64);

/// A trend record as decoded from one intake message.
pub struct InterestOverTime {
    pub msg_type: String,
    pub fetched_at: String,
    pub timestamp: String,
    pub data: Vec<Measurement>,
}

/// A record after filtering and normalization.
pub struct CleanedInterest {
    pub msg_type: String,
    pub fetched_at: String,
    pub timestamp: String,
    pub data: Vec<Measurement>,
    /// Whether the values were rescaled (not whether they happen to lie in range).
    pub is_normalized: bool,
}

/// A stored post of the posts service.
#[derive(Debug, Clone)]
pub struct Post {
    pub id: i32,
    pub title: Option<String>,
    pub description: Option<String>,
}

/// The body of a request that creates or updates a post.
#[derive(Debug)]
pub struct CreatePost {
    pub title: String,
    pub description: String,
}

/// The uniform response envelope of the posts service.
#[derive(Debug)]
pub struct ApiResponse<T> {
    pub status_code: u16,
    pub success: bool,
    pub message: String,
    pub data: Option<T>,
}

/// The body of the service's root endpoint.
#[derive(Debug)]
pub struct RootResponse {
    pub timestamp: String,
    pub message: String,
    pub status: i16,
}

impl<T> ApiResponse<T> {
    /// A successful response with the given status and payload.
    pub fn success(status_code: u16, data: Option<T>) -> (r: Self)
        ensures
            r.status_code == status_code,
            r.success,
            r.message@ == "Success"@,
            r.data == data,
    {
        ApiResponse { status_code, success: true, message: String::from_str("Success"), data }
    }
}

} // verus!
