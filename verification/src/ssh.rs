//! How to reach a remote shell, and how to prove who is connecting.
use vstd::prelude::*;

verus! {

/// Where and as whom to connect, and with what secret.
#[derive(Debug, Clone)]
pub struct SshConfig {
    pub host: String,
    pub port: u16,
    pub username: String,
    pub password: Option<String>,
    pub key_path: Option<String>,
}

/// The way a connection authenticates.
#[derive(Debug, Clone)]
pub enum SshAuth {
    /// With this password.
    Password(String),
    /// With the private key in this file.
    KeyFile(String),
}

impl SshConfig {
    /// The password where one is given; otherwise the key file where one is
    /// given; otherwise no way to authenticate.
    pub fn auth(&self) -> (r: Option<SshAuth>)
        ensures
            match self.password {
                Some(p) => r matches Some(SshAuth::Password(q)) && q@ == p@,
                None => match self.key_path {
                    Some(k) => r matches Some(SshAuth::KeyFile(q)) && q@ == k@,
                    None => r is None,
                },
            },
    {
        match &self.password {
            Some(p) => Some(SshAuth::Password(p.clone())),
            None => match &self.key_path {
                Some(k) => Some(SshAuth::KeyFile(k.clone())),
                None => None,
            },
        }
    }
}

} // verus!
