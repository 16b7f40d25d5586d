//! What a client presents to log in, and which of two tokens counts.

use vstd::prelude::*;

verus! {

/// The device label of a login that names no device.
pub open spec fn unknown_device() -> Seq<char> {
    "Unknown device"@
}

/// What a set of credentials is.
pub struct UserCredentialsView {
    pub login: Seq<char>,
    pub password: Seq<char>,
    pub device: Option<Seq<char>>,
}

impl UserCredentialsView {
    /// The label under which a session for these credentials is filed.
    pub open spec fn device_label(self) -> Seq<char> {
        match self.device {
            Some(device) => device,
            None => unknown_device(),
        }
    }
}

/// A login identifier, a plaintext password and, optionally, the name of the
/// device that logs in.
#[derive(Debug, PartialEq, Eq)]
pub struct UserCredentials {
    login: String,
    password: String,
    device: Option<String>,
}

impl View for UserCredentials {
    type V = UserCredentialsView;

    closed spec fn view(&self) -> UserCredentialsView {
        UserCredentialsView {
            login: self.login@,
            password: self.password@,
            device: match self.device {
                Some(device) => Some(device@),
                None => None,
            },
        }
    }
}

impl Clone for UserCredentials {
    fn clone(&self) -> (copy: UserCredentials)
        ensures
            copy@ == self@,
    {
        UserCredentials {
            login: self.login.clone(),
            password: self.password.clone(),
            device: match &self.device {
                Some(d) => Some(d.clone()),
                None => None,
            },
        }
    }
}

impl UserCredentials {
    /// Credentials as a client sent them.
    pub fn new(login: &str, password: &str, device: Option<&str>) -> (credentials: UserCredentials)
        ensures
            credentials@.login == login@,
            credentials@.password == password@,
            match device {
                Some(d) => credentials@.device == Some(d@),
                None => credentials@.device is None,
            },
    {
        UserCredentials {
            login: login.to_owned(),
            password: password.to_owned(),
            device: match device {
                Some(d) => Some(d.to_owned()),
                None => None,
            },
        }
    }

    /// The login identifier.
    pub fn login(&self) -> (login: &str)
        ensures
            login@ == self@.login,
    {
        self.login.as_str()
    }

    /// The plaintext password.
    pub fn password(&self) -> (password: &str)
        ensures
            password@ == self@.password,
    {
        self.password.as_str()
    }

    /// The device name, if one was given.
    pub fn device(&self) -> (device: Option<&str>)
        ensures
            match device {
                Some(d) => self@.device == Some(d@),
                None => self@.device is None,
            },
    {
        match &self.device {
            Some(d) => Some(d.as_str()),
            None => None,
        }
    }

    /// The device name that was given, or `"Unknown device"`.
    pub fn device_label(&self) -> (label: String)
        ensures
            label@ == self@.device_label(),
    {
        match &self.device {
            Some(d) => d.clone(),
            None => "Unknown device".to_owned(),
        }
    }
}

/// The token that counts where a request may carry one in two places.
pub open spec fn selected_token<'a>(
    explicit: Option<&'a str>,
    cookie: Option<&'a str>,
) -> Option<&'a str> {
    if explicit is Some {
        explicit
    } else {
        cookie
    }
}

/// Of the two places a request can carry a token in, the explicit one wins:
/// the cookie counts only where no explicit token was sent.
pub fn select_token<'a>(explicit: Option<&'a str>, cookie: Option<&'a str>) -> (token: Option<
    &'a str,
>)
    ensures
        token == selected_token(explicit, cookie),
{
    match explicit {
        Some(_) => explicit,
        None => cookie,
    }
}

} // verus!
