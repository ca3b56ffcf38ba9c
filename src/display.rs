//! What the daemon shows and reports about its pairing state: the URL of
//! the pairing QR code page and the fields of the `get_info` reply.
use crate::app_cache::{Cache, TOPIC_ID};
use crate::codec::texts;
use crate::text::join;
use vstd::prelude::*;

verus! {

pub const QRCODE_URL_PREFIX: &'static str =
    "file:///opt/feral/ui/launcher/index.html?step=qr&device_id=";

/// The QR code page URL: `prefix + device_id`, and when a relay topic is
/// known, `|topic|true` or `|topic|false` after it by internet access.
pub open spec fn qrcode_url_of(device_id: Seq<char>, topic: Option<Seq<char>>, internet: bool) -> Seq<
    char,
> {
    let base = QRCODE_URL_PREFIX@ + device_id;
    match topic {
        None => base,
        Some(t) => base + "|"@ + t + "|"@ + (if internet {
            "true"@
        } else {
            "false"@
        }),
    }
}

/// Builds the URL of the QR code page.
pub fn build_qrcode_url(device_id: &str, topic_id: &Option<String>, has_internet: bool) -> (r:
    String)
    ensures
        r@ == qrcode_url_of(
            device_id@,
            match topic_id {
                Some(t) => Some(t@),
                None => None,
            },
            has_internet,
        ),
{
    let url = join(QRCODE_URL_PREFIX, device_id);
    match topic_id {
        None => url,
        Some(t) => {
            let url = join(url.as_str(), "|");
            let url = join(url.as_str(), t.as_str());
            let url = join(url.as_str(), "|");
            if has_internet {
                join(url.as_str(), "true")
            } else {
                join(url.as_str(), "false")
            }
        },
    }
}

/// The payload of a `get_info` reply: the stored relay topic id, or nothing
/// when none is stored.
pub fn info_fields(cache: &Cache) -> (r: Vec<String>)
    ensures
        texts(r@) == (if cache@.contains_key(TOPIC_ID@) {
            seq![cache@[TOPIC_ID@]]
        } else {
            Seq::empty()
        }),
{
    let mut out: Vec<String> = Vec::new();
    match cache.get(TOPIC_ID) {
        Some(t) => {
            out.push(t);
            assert(texts(out@) =~= seq![cache@[TOPIC_ID@]]);
        },
        None => {
            assert(texts(out@) =~= Seq::<Seq<char>>::empty());
        },
    }
    out
}

/// What the display shows when the daemon starts.
#[derive(Clone, Copy, Debug, PartialEq, Eq, Structural)]
pub enum StartupScreen {
    /// The web app: the device is paired and online.
    WebApp,
    /// The pairing QR code; with `auto_redirect`, the display moves on to the
    /// web app by itself once the network is back.
    QrCode { auto_redirect: bool },
}

/// The web app when a relay topic is stored and the internet is reachable;
/// otherwise the QR code, which redirects by itself when only the internet
/// is missing.
pub fn startup_screen(has_topic: bool, has_internet: bool) -> (r: StartupScreen)
    ensures
        r == (if has_topic && has_internet {
            StartupScreen::WebApp
        } else {
            StartupScreen::QrCode { auto_redirect: has_topic && !has_internet }
        }),
{
    if has_topic && has_internet {
        StartupScreen::WebApp
    } else {
        StartupScreen::QrCode { auto_redirect: has_topic && !has_internet }
    }
}

} // verus!
