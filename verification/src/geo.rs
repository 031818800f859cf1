//! The geolocation client's logic: building the provider URL and reading the
//! country out of the provider's JSON response.

use vstd::prelude::*;
use vstd::string::*;

verus! {

/// Whether a text is well-formed JSON, as the JSON parser decides it.
pub uninterp spec fn json_parses(body: Seq<char>) -> bool;

/// The string value of a top-level field of a JSON text: `None` where the
/// field is absent or not a string.
pub uninterp spec fn json_str_field(body: Seq<char>, key: Seq<char>) -> Option<Seq<char>>;

/// Relies on `serde_json::from_str::<Value>`, `Value::get` and
/// `Value::as_str`: whether parsing succeeds, and which string a top-level
/// field holds, are functions of the text alone; on a parse failure the
/// parser's error message is returned.
#[verifier::external_body]
fn json_string_field(body: &str, key: &str) -> (r: Result<Option<String>, String>)
    ensures
        r is Ok <==> json_parses(body@),
        r matches Ok(f) && f matches Some(s) ==> json_str_field(body@, key@) == Option::Some(s@),
        r matches Ok(f) && f is None ==> json_str_field(body@, key@) is None,
{
    match serde_json::from_str::<serde_json::Value>(body) {
        Ok(v) => Ok(v.get(key).and_then(|f| f.as_str()).map(|s| s.to_string())),
        Err(e) => Err(e.to_string()),
    }
}

/// Failure of a single lookup's response handling: the body could not be
/// decoded as JSON; the message is the decoder's.
#[derive(Debug)]
pub enum GeoError {
    Decode(String),
}

impl GeoError {
    pub fn message(&self) -> (r: String)
        ensures
            self matches GeoError::Decode(m) ==> r@ == m@,
    {
        match self {
            GeoError::Decode(m) => m.clone(),
        }
    }
}

/// The country a response yields: the `country_name` field where it is a
/// string, the sentinel `Unknown` where it is absent or of another type.
pub open spec fn country_of(body: Seq<char>) -> Seq<char> {
    match json_str_field(body, "country_name"@) {
        Option::Some(s) => s,
        Option::None => "Unknown"@,
    }
}

/// The label for a country field: the field's value, or `Unknown` where the
/// response had none.
pub fn country_label(field: Option<String>) -> (r: String)
    ensures
        field matches Some(s) ==> r@ == s@,
        field is None ==> r@ == "Unknown"@,
{
    match field {
        Some(s) => s,
        None => String::from_str("Unknown"),
    }
}

/// Extracts the country from a response body: `country_of` the body where it
/// is well-formed JSON, the decoder's error where it is not.
pub fn country_from_response(body: &str) -> (r: Result<String, GeoError>)
    ensures
        r is Ok <==> json_parses(body@),
        r matches Ok(c) ==> c@ == country_of(body@),
        r matches Err(e) ==> e matches GeoError::Decode(_),
{
    match json_string_field(body, "country_name") {
        Ok(f) => Ok(country_label(f)),
        Err(m) => Err(GeoError::Decode(m)),
    }
}

/// The provider URL for one lookup, with the API key and the target IP as
/// query parameters.
pub open spec fn geo_url(key: Seq<char>, ip: Seq<char>) -> Seq<char> {
    "https://api.ipgeolocation.io/ipgeo?apiKey="@ + key + "&ip="@ + ip
}

/// Builds the provider URL for one lookup.
pub fn build_url(api_key: &str, ip: &str) -> (r: String)
    ensures
        r@ == geo_url(api_key@, ip@),
{
    let mut s = String::from_str("https://api.ipgeolocation.io/ipgeo?apiKey=");
    s.append(api_key);
    s.append("&ip=");
    s.append(ip);
    proof {
        assert(s@ =~= geo_url(api_key@, ip@));
    }
    s
}

} // verus!
