//! HTTP versions.
use vstd::prelude::*;

verus! {

/// A representation of the supported HTTP versions.
#[derive(Debug, Copy, Clone, PartialEq, Eq, PartialOrd, Structural)]
pub enum HttpVersion {
    /// HTTP/1.0
    Http10,
    /// HTTP/1.1
    Http11,
}

impl Default for HttpVersion {
    fn default() -> (v: Self)
        ensures
            v == HttpVersion::Http11,
    {
        HttpVersion::Http11
    }
}

impl HttpVersion {
    /// The version with this minor number.
    pub open spec fn of_minor(minor: u8) -> Result<HttpVersion, u8> {
        if minor == 0 {
            Ok(HttpVersion::Http10)
        } else if minor == 1 {
            Ok(HttpVersion::Http11)
        } else {
            Err(minor)
        }
    }

    /// How the version is written.
    pub open spec fn text(self) -> Seq<char> {
        match self {
            HttpVersion::Http10 => "HTTP/1.0"@,
            HttpVersion::Http11 => "HTTP/1.1"@,
        }
    }

    /// True when the version supports an informational (1xx) response.
    pub fn supports_informational_response(&self) -> (r: bool)
        ensures
            r == (*self == HttpVersion::Http11),
    {
        match self {
            HttpVersion::Http10 => false,
            HttpVersion::Http11 => true,
        }
    }

    /// A `&'static str` representation of the version.
    pub fn to_static(&self) -> (s: &'static str)
        ensures
            s@ == self.text(),
    {
        match self {
            HttpVersion::Http10 => "HTTP/1.0",
            HttpVersion::Http11 => "HTTP/1.1",
        }
    }
}

impl TryFrom<u8> for HttpVersion {
    type Error = u8;

    fn try_from(value: u8) -> (r: Result<Self, u8>) {
        match value {
            0 => Ok(HttpVersion::Http10),
            1 => Ok(HttpVersion::Http11),
            _ => Err(value),
        }
    }
}

impl vstd::std_specs::convert::TryFromSpecImpl<u8> for HttpVersion {
    open spec fn obeys_try_from_spec() -> bool {
        true
    }

    open spec fn try_from_spec(value: u8) -> Result<Self, u8> {
        HttpVersion::of_minor(value)
    }
}

impl TryFrom<&u8> for HttpVersion {
    type Error = u8;

    fn try_from(value: &u8) -> (r: Result<Self, u8>) {
        <HttpVersion as TryFrom<u8>>::try_from(*value)
    }
}

impl vstd::std_specs::convert::TryFromSpecImpl<&u8> for HttpVersion {
    open spec fn obeys_try_from_spec() -> bool {
        true
    }

    open spec fn try_from_spec(value: &u8) -> Result<Self, u8> {
        HttpVersion::of_minor(*value)
    }
}

/// The minor number of a version is 0 or 1; it is what the version is read from and written
/// with, no other number is a version, and only the later one has informational responses.
pub proof fn versions_are_their_minor_number(minor: u8, v: HttpVersion, r: bool)
    requires
        HttpVersion::of_minor(minor) == Ok::<_, u8>(v),
        call_ensures(HttpVersion::supports_informational_response, (&v,), r),
    ensures
        minor == 0 || minor == 1,
        v == HttpVersion::Http10 <==> minor == 0,
        v == HttpVersion::Http11 <==> minor == 1,
        r <==> minor == 1,
        v.text().len() == 8,
        v.text().last() as int == '0' as int + minor,
        v.text().take(7) == "HTTP/1."@,
{
    reveal_strlit("HTTP/1.0");
    reveal_strlit("HTTP/1.1");
    reveal_strlit("HTTP/1.");
    assert(v.text().take(7) =~= "HTTP/1."@);
}

/// Every other minor number is refused, and told.
pub proof fn other_minor_numbers_are_refused(minor: u8)
    ensures
        minor <= 1 ==> HttpVersion::of_minor(minor) is Ok,
        minor > 1 ==> HttpVersion::of_minor(minor) == Err::<HttpVersion, u8>(minor),
{
}

} // verus!
