use vstd::prelude::*;
use vstd::string::{StringExecFns, StringSliceAdditionalSpecFns};
use vstd::utf8::{decode_utf8, valid_utf8};

use crate::scan::{bytes_of, extract};
use crate::pattern::extracted;
use crate::stream::ByteStream;

verus! {

/// Base of the store page of an app; the app's identifier follows it.
pub const APP_URL: &'static str = "https://store.steampowered.com/app/";

/// Shown for a game whose name could not be found.
pub const UNKNOWN_GAME: &'static str = "Unknown game";

/// The tag that opens a game's name on its store page.
pub const APP_NAME_PREFIX: &'static str = "<div id=\"appHubAppName\" class=\"apphub_AppName\">";

/// The tag that closes a game's name on its store page.
pub const APP_NAME_SUFFIX: &'static str = "</div>";

/// The address of the store page of app `id`.
pub fn make_app_page(id: &str) -> (r: String)
    ensures
        r@ == APP_URL@ + id@,
{
    let mut url = String::from_str(APP_URL);
    url.append(id);
    url
}

/// Relies on String::from_utf8: it succeeds exactly on valid UTF-8, and the
/// string then holds the decoded characters.
#[verifier::external_body]
fn text_from_utf8(bytes: Vec<u8>) -> (r: Option<String>)
    ensures
        r is Some <==> valid_utf8(bytes@),
        r matches Some(t) ==> t@ == decode_utf8(bytes@),
{
    match String::from_utf8(bytes) {
        Ok(t) => Some(t),
        Err(_) => None,
    }
}

/// The name shown for a game whose page yielded `found`: its text when it
/// is valid UTF-8, the fallback label otherwise.
pub open spec fn display_name(found: Option<Seq<u8>>) -> Seq<char> {
    match found {
        Some(b) => if valid_utf8(b) {
            decode_utf8(b)
        } else {
            UNKNOWN_GAME@
        },
        None => UNKNOWN_GAME@,
    }
}

/// Turns what was extracted from a store page into the name to show.
pub fn game_name(found: Option<Vec<u8>>) -> (r: String)
    ensures
        r@ == display_name(bytes_of(found)),
{
    match found {
        Some(b) => match text_from_utf8(b) {
            Some(t) => t,
            None => String::from_str(UNKNOWN_GAME),
        },
        None => String::from_str(UNKNOWN_GAME),
    }
}

/// The name shown for the game whose store page is `page`.
pub open spec fn page_name(page: Seq<u8>) -> Seq<char> {
    display_name(extracted(APP_NAME_PREFIX.spec_bytes(), APP_NAME_SUFFIX.spec_bytes(), page))
}

/// Finds the name of a game in the bytes of its store page.
pub fn resolve_name(page: &mut ByteStream) -> (r: String)
    ensures
        r@ == page_name(old(page)@),
{
    proof {
        reveal_strlit("<div id=\"appHubAppName\" class=\"apphub_AppName\">");
        reveal_strlit("</div>");
    }
    assert(APP_NAME_PREFIX.is_ascii());
    assert(APP_NAME_SUFFIX.is_ascii());
    game_name(extract(APP_NAME_PREFIX.as_bytes(), APP_NAME_SUFFIX.as_bytes(), page))
}

} // verus!
