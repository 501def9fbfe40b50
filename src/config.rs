//! The user's configuration and how a single attribute of it is set.

use vstd::prelude::*;

verus! {

/// A course to be selected automatically once it has room.
pub struct SupplementCourseConfig {
    pub page_id: usize,
    pub name: String,
    pub teacher: String,
    pub class_id: String,
}

/// Credentials of the captcha-recognition service.
pub struct TTShiTuConfig {
    pub username: String,
    pub password: String,
}

/// The token of the push-notification service.
pub struct BarkConfig {
    pub token: String,
}

pub struct Config {
    pub username: String,
    pub password: String,
    pub ttshitu: Option<TTShiTuConfig>,
    pub bark: Option<BarkConfig>,
    pub auto_supplement: Option<Vec<SupplementCourseConfig>>,
}

/// The attributes that can be set one at a time.
#[derive(Debug, Clone, Copy, PartialEq, Eq, Structural)]
pub enum ConfigAttrs {
    Username,
    Password,
    TTShiTuUsername,
    TTShiTuPassword,
    BarkToken,
}

/// The view of an optional captcha-service entry: its username and password.
pub open spec fn ttshitu_view(t: Option<TTShiTuConfig>) -> Option<(Seq<char>, Seq<char>)> {
    match t {
        Some(c) => Some((c.username@, c.password@)),
        None => None,
    }
}

/// What `update` leaves in `c` when `attr` is set to `value`, field by field:
/// (username, password, captcha service, notification token).
pub open spec fn updated(c: Config, attr: ConfigAttrs, value: Seq<char>) -> (
    Seq<char>,
    Seq<char>,
    Option<(Seq<char>, Seq<char>)>,
    Option<Seq<char>>,
) {
    let bark = match c.bark {
        Some(b) => Some(b.token@),
        None => None,
    };
    let tt = ttshitu_view(c.ttshitu);
    match attr {
        ConfigAttrs::Username => (value, c.password@, tt, bark),
        ConfigAttrs::Password => (c.username@, value, tt, bark),
        ConfigAttrs::TTShiTuUsername => (
            c.username@,
            c.password@,
            Some(
                (
                    value,
                    match tt {
                        Some(t) => t.1,
                        None => Seq::empty(),
                    },
                ),
            ),
            bark,
        ),
        ConfigAttrs::TTShiTuPassword => (
            c.username@,
            c.password@,
            Some(
                (
                    match tt {
                        Some(t) => t.0,
                        None => Seq::empty(),
                    },
                    value,
                ),
            ),
            bark,
        ),
        ConfigAttrs::BarkToken => (c.username@, c.password@, tt, Some(value)),
    }
}

impl Config {
    /// The configuration's fields as `updated` describes them.
    pub open spec fn fields(&self) -> (
        Seq<char>,
        Seq<char>,
        Option<(Seq<char>, Seq<char>)>,
        Option<Seq<char>>,
    ) {
        (
            self.username@,
            self.password@,
            ttshitu_view(self.ttshitu),
            match self.bark {
                Some(b) => Some(b.token@),
                None => None,
            },
        )
    }

    /// Sets one attribute. Setting half of the captcha-service credentials
    /// where none were set leaves the other half empty.
    pub fn update(&mut self, attr: ConfigAttrs, value: String)
        ensures
            final(self).fields() == updated(*old(self), attr, value@),
            final(self).auto_supplement == old(self).auto_supplement,
    {
        match attr {
            ConfigAttrs::Username => self.username = value,
            ConfigAttrs::Password => self.password = value,
            ConfigAttrs::TTShiTuUsername => {
                match &mut self.ttshitu {
                    Some(tt) => tt.username = value,
                    None => {
                        self.ttshitu = Some(TTShiTuConfig { username: value, password: String::new() })
                    },
                }
            },
            ConfigAttrs::TTShiTuPassword => {
                match &mut self.ttshitu {
                    Some(tt) => tt.password = value,
                    None => {
                        self.ttshitu = Some(TTShiTuConfig { username: String::new(), password: value })
                    },
                }
            },
            ConfigAttrs::BarkToken => self.bark = Some(BarkConfig { token: value }),
        }
    }
}

} // verus!
