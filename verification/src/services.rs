//! The two services a bot can play from, and how their names are read.

use vstd::prelude::*;

use crate::text;
use crate::text::{ascii_lower_vec, chars_of, trim_vec, vec_eq_str};

verus! {

/// A music service.
#[derive(Debug, Clone, Copy, PartialEq, Eq, Structural)]
pub enum Service {
    Spotify,
    YouTube,
}

impl Default for Service {
    fn default() -> (r: Self)
        ensures
            r == Service::Spotify,
    {
        Service::Spotify
    }
}

/// Which service a name means: `spotify`/`sp` or `youtube`/`yt`, ignoring
/// surrounding whitespace and letter case.
pub open spec fn service_named(s: Seq<char>) -> Option<Service> {
    let w = text::ascii_lower(text::trim(s));
    if w == "spotify"@ || w == "sp"@ {
        Some(Service::Spotify)
    } else if w == "youtube"@ || w == "yt"@ {
        Some(Service::YouTube)
    } else {
        None
    }
}

/// The name a service is shown by.
pub open spec fn service_label(s: Service) -> Seq<char> {
    match s {
        Service::Spotify => "Spotify"@,
        Service::YouTube => "YouTube"@,
    }
}

/// A service's shown name reads back as that service.
pub proof fn lemma_label_names_service(s: Service)
    ensures
        service_named(service_label(s)) == Some(s),
{
    reveal_strlit("Spotify");
    reveal_strlit("YouTube");
    reveal_strlit("spotify");
    reveal_strlit("youtube");
    reveal_strlit("sp");
    reveal_strlit("yt");
    let l = service_label(s);
    let lo = text::ascii_lower(l);
    assert(l.len() == 7);
    assert(!text::is_ws(l[0]));
    assert(!text::is_ws(l[6]));
    assert(text::trim_start(l) == l);
    assert(text::trim_end(l) == l);
    assert(text::trim(l) == l);
    if s == Service::Spotify {
        assert(lo =~= "spotify"@);
        assert(service_named(l) == Some(Service::Spotify));
    } else {
        assert(lo =~= "youtube"@);
        assert(lo != "spotify"@) by {
            assert(lo[0] != "spotify"@[0]);
        }
        assert(lo != "sp"@);
        assert(service_named(l) == Some(Service::YouTube));
    }
}

impl Service {
    /// The name the config file stores and the form shows.
    pub fn name(&self) -> (r: &'static str)
        ensures
            r@ == service_label(*self),
    {
        match self {
            Service::Spotify => "Spotify",
            Service::YouTube => "YouTube",
        }
    }

    /// Read a service name however it was capitalised. The words are all
    /// ASCII and no non-ASCII character lowercases onto one of their letters,
    /// so comparing ASCII-lowercased text is the same test as comparing the
    /// Unicode lowercase.
    pub fn parse(s: &str) -> (r: Option<Service>)
        ensures
            r == service_named(s@),
    {
        let t = trim_vec(&chars_of(s));
        let w = ascii_lower_vec(&t);
        if vec_eq_str(&w, "spotify") || vec_eq_str(&w, "sp") {
            Some(Service::Spotify)
        } else if vec_eq_str(&w, "youtube") || vec_eq_str(&w, "yt") {
            Some(Service::YouTube)
        } else {
            None
        }
    }

    /// Read a service name, falling back to the default service when the text
    /// names neither.
    pub fn parse_or_default(s: &str) -> (r: Service)
        ensures
            r == match service_named(s@) {
                Some(x) => x,
                None => Service::Spotify,
            },
    {
        match Service::parse(s) {
            Some(x) => x,
            None => Service::Spotify,
        }
    }
}

} // verus!
