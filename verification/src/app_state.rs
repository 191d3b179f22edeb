//! The application's state, and the setup that a scanned code calls for.
use vstd::prelude::*;
use vstd::string::StringExecFns;

use crate::olv::patch::{cert_url, cert_url_of};
use crate::qr::camera::CameraState;
use crate::qr::frame::{TOP_HEIGHT, TOP_WIDTH};
use crate::qr::scanner::Scanner;
use crate::qr_code::{QrCode, parse_qr_code};

verus! {

/// What the application holds between frames.
pub struct AppState {
    pub scanner: Scanner,
    pub camera: CameraState,
    pub qr: Option<QrCode>,
    /// A setup code has been taken for setup: camera frames are no longer wanted.
    pub scanned: bool,
}

/// The localStorage key under which the token is saved.
pub const TOKEN_STORAGE_KEY: &'static str = "fediiverse_token";

/// The localStorage key as characters.
pub open spec fn token_storage_key() -> Seq<char> {
    seq!['f', 'e', 'd', 'i', 'i', 'v', 'e', 'r', 's', 'e', '_', 't', 'o', 'k', 'e', 'n']
}

/// The fields of the state's code, if it holds one.
pub open spec fn code_view(qr: Option<QrCode>) -> Option<(Seq<char>, Seq<char>)> {
    match qr {
        Some(code) => Some(code@),
        None => None,
    }
}

/// The setup code that a scanned text is, if it is one.
pub open spec fn scanned_code(text: Option<Seq<char>>) -> Option<(Seq<char>, Seq<char>)> {
    match text {
        Some(t) => match parse_qr_code(t) {
            Ok(code) => Some(code),
            Err(_) => None,
        },
        None => None,
    }
}

/// The work that a scanned setup code calls for: download the certificate from
/// `cert_url`, then save `storage_value` under `storage_key` in OLV's local storage.
#[derive(Debug)]
pub struct Setup {
    pub cert_url: String,
    pub storage_key: String,
    pub storage_value: String,
}

impl Setup {
    /// The setup for a code: the certificate of its setup host, and its token saved
    /// under `fediiverse_token`.
    pub fn for_code(code: &QrCode) -> (s: Setup)
        ensures
            s.cert_url@ == cert_url_of(code.setup_host@),
            s.storage_key@ == token_storage_key(),
            s.storage_value@ == code.token@,
    {
        let key = TOKEN_STORAGE_KEY;
        proof {
            reveal_strlit("fediiverse_token");
        }
        assert(key@ =~= token_storage_key());
        Setup {
            cert_url: cert_url(code.setup_host.as_str()),
            storage_key: String::from_str(key),
            storage_value: code.token.clone(),
        }
    }
}

impl AppState {
    /// A fresh state: a blank top-screen frame for the scanner, the given camera,
    /// and no code scanned yet.
    pub fn new(camera: CameraState) -> (s: AppState)
        ensures
            s.scanner.image.wf(),
            s.scanner.image.width == TOP_WIDTH,
            s.scanner.image.height == TOP_HEIGHT,
            forall|i: int|
                0 <= i < s.scanner.image.pixels@.len() ==> #[trigger] s.scanner.image.pixels@[i]
                    == 0u8,
            s.camera == camera,
            s.qr is None,
            !s.scanned,
    {
        AppState { scanner: Scanner::default(), camera, qr: None, scanned: false }
    }

    /// Whether the main loop still wants camera frames: until a setup code has been
    /// taken for setup.
    pub fn wants_frames(&self) -> (wanted: bool)
        ensures
            wanted == !self.scanned,
    {
        !self.scanned
    }

    /// Takes in what a search of the scanner's frame read (the text of the last
    /// grid found, if it decoded): a setup code becomes the state's code; any other
    /// text, or none, changes nothing.
    pub fn record_scan(&mut self, text: Option<String>)
        ensures
            code_view(final(self).qr) == if scanned_code(text.deep_view()) is Some {
                scanned_code(text.deep_view())
            } else {
                code_view(old(self).qr)
            },
            final(self).scanner == old(self).scanner,
            final(self).camera == old(self).camera,
            final(self).scanned == old(self).scanned,
    {
        if let Some(text) = text {
            match QrCode::from_str(text.as_str()) {
                Ok(code) => {
                    self.qr = Some(code);
                },
                Err(_) => {},
            }
        }
    }

    /// Takes the scanned code out of the state, if there is one, and returns the
    /// setup it calls for; the state is left without a code, and once a code has
    /// been taken no more frames are wanted.
    pub fn take_setup(&mut self) -> (res: Option<Setup>)
        ensures
            final(self).qr is None,
            final(self).scanned == (old(self).scanned || old(self).qr is Some),
            final(self).scanner == old(self).scanner,
            final(self).camera == old(self).camera,
            old(self).qr is None ==> res is None,
            old(self).qr matches Some(code) ==> res matches Some(s) && s.cert_url@ == cert_url_of(
                code.setup_host@,
            ) && s.storage_key@ == token_storage_key() && s.storage_value@ == code.token@,
    {
        match self.qr.take() {
            Some(code) => {
                self.scanned = true;
                Some(Setup::for_code(&code))
            },
            None => None,
        }
    }
}

} // verus!
