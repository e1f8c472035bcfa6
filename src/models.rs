use vstd::prelude::*;

verus! {

/// Options of a biometric authentication request.
#[derive(Debug)]
pub struct AuthOptions {
    /// Enables authentication using the device's password (Android and iOS).
    pub allow_device_credential: bool,
    /// Label for the Cancel button (Android and iOS).
    pub cancel_title: Option<String>,
    /// Text of the fallback button shown when biometric authentication fails (iOS).
    pub fallback_title: Option<String>,
    /// Title stating the purpose of the verification (Android).
    pub title: Option<String>,
    /// Subtitle giving context for the verification (Android).
    pub subtitle: Option<String>,
    /// Whether the user must confirm after a successful authentication (Android).
    pub confirmation_required: Option<bool>,
    pub max_attemps: Option<u32>,
    pub mode: Option<AuthMode>,
    pub cipher_key: Option<String>,
    pub cipher_data: Option<CipherData>,
}

impl Default for AuthOptions {
    fn default() -> (r: AuthOptions)
        ensures
            !r.allow_device_credential,
            r.cancel_title is None && r.fallback_title is None,
            r.title is None && r.subtitle is None,
            r.confirmation_required is None && r.max_attemps is None,
            r.mode is None && r.cipher_key is None && r.cipher_data is None,
    {
        AuthOptions {
            allow_device_credential: false,
            cancel_title: None,
            fallback_title: None,
            title: None,
            subtitle: None,
            confirmation_required: None,
            max_attemps: None,
            mode: None,
            cipher_key: None,
            cipher_data: None,
        }
    }
}

/// What an authentication request does; carried on the wire as one byte.
#[allow(non_camel_case_types)]
#[derive(Debug, Clone, Copy, PartialEq, Eq, Structural)]
pub enum AuthMode {
    PROMPT,
    ENCRYPT,
    DECRYPT,
}

impl AuthMode {
    pub open spec fn spec_code(self) -> u8 {
        match self {
            AuthMode::PROMPT => 0,
            AuthMode::ENCRYPT => 1,
            AuthMode::DECRYPT => 2,
        }
    }

    /// The byte that stands for this mode.
    pub fn code(self) -> (r: u8)
        ensures
            r == self.spec_code(),
    {
        match self {
            AuthMode::PROMPT => 0,
            AuthMode::ENCRYPT => 1,
            AuthMode::DECRYPT => 2,
        }
    }

    /// The mode that `code` stands for, if any.
    pub fn from_code(code: u8) -> (r: Option<AuthMode>)
        ensures
            r matches Some(m) ==> m.spec_code() == code,
            r is None <==> code > 2,
    {
        if code == 0 {
            Some(AuthMode::PROMPT)
        } else if code == 1 {
            Some(AuthMode::ENCRYPT)
        } else if code == 2 {
            Some(AuthMode::DECRYPT)
        } else {
            None
        }
    }
}

/// The kind of biometric sensor a device offers; carried as one byte.
#[derive(Debug, Clone, Copy, PartialEq, Eq, Structural)]
pub enum BiometryType {
    NoBiometry,
    TouchID,
    FaceID,
}

impl BiometryType {
    pub open spec fn spec_code(self) -> u8 {
        match self {
            BiometryType::NoBiometry => 0,
            BiometryType::TouchID => 1,
            BiometryType::FaceID => 2,
        }
    }

    /// The byte that stands for this kind.
    pub fn code(self) -> (r: u8)
        ensures
            r == self.spec_code(),
    {
        match self {
            BiometryType::NoBiometry => 0,
            BiometryType::TouchID => 1,
            BiometryType::FaceID => 2,
        }
    }

    /// The kind that `code` stands for, if any.
    pub fn from_code(code: u8) -> (r: Option<BiometryType>)
        ensures
            r matches Some(t) ==> t.spec_code() == code,
            r is None <==> code > 2,
    {
        if code == 0 {
            Some(BiometryType::NoBiometry)
        } else if code == 1 {
            Some(BiometryType::TouchID)
        } else if code == 2 {
            Some(BiometryType::FaceID)
        } else {
            None
        }
    }
}

/// Whether biometric authentication can be used, as the device reports it.
#[derive(Debug, Clone)]
pub struct Status {
    pub is_available: bool,
    pub biometry_type: BiometryType,
    pub error: Option<String>,
    pub error_code: Option<String>,
}

/// Data to encrypt or decrypt with a biometric-protected key.
#[derive(Debug, Clone)]
pub struct CipherData {
    pub data: Option<String>,
    pub initialization_vector: Option<String>,
}

} // verus!
