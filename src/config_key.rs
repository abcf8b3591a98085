//! The four recognized trailing segments of a profile key.
use vstd::prelude::*;
use crate::chars::str_eq;

verus! {

/// A field of an identity profile, named by the last segment of its key.
#[derive(Clone, Copy, Debug, PartialEq, Eq, Hash, Structural)]
pub enum ConfigKey {
    Name,
    Email,
    SigningKey,
    SshKey,
}

impl ConfigKey {
    /// The segment that names this field in a key.
    pub open spec fn segment(self) -> Seq<char> {
        match self {
            ConfigKey::Name => seq!['n', 'a', 'm', 'e'],
            ConfigKey::Email => seq!['e', 'm', 'a', 'i', 'l'],
            ConfigKey::SigningKey => seq!['s', 'i', 'g', 'n', 'i', 'n', 'g', 'k', 'e', 'y'],
            ConfigKey::SshKey => seq!['s', 's', 'h', 'k', 'e', 'y'],
        }
    }

    /// The field that a segment names, if it names one (exact, lower case).
    pub open spec fn parse_spec(s: Seq<char>) -> Option<ConfigKey> {
        if s == ConfigKey::Name.segment() {
            Some(ConfigKey::Name)
        } else if s == ConfigKey::Email.segment() {
            Some(ConfigKey::Email)
        } else if s == ConfigKey::SigningKey.segment() {
            Some(ConfigKey::SigningKey)
        } else if s == ConfigKey::SshKey.segment() {
            Some(ConfigKey::SshKey)
        } else {
            None
        }
    }

    /// The segment of this field as text.
    pub fn as_str(self) -> (r: &'static str)
        ensures
            r@ == self.segment(),
    {
        match self {
            ConfigKey::Name => {
                proof {
                    reveal_strlit("name");
                }
                assert("name"@ =~= self.segment());
                "name"
            },
            ConfigKey::Email => {
                proof {
                    reveal_strlit("email");
                }
                assert("email"@ =~= self.segment());
                "email"
            },
            ConfigKey::SigningKey => {
                proof {
                    reveal_strlit("signingkey");
                }
                assert("signingkey"@ =~= self.segment());
                "signingkey"
            },
            ConfigKey::SshKey => {
                proof {
                    reveal_strlit("sshkey");
                }
                assert("sshkey"@ =~= self.segment());
                "sshkey"
            },
        }
    }

    /// Reads a trailing key segment. Any text other than the four exact
    /// lower-case names gives `None`.
    pub fn from_str(s: &str) -> (r: Option<ConfigKey>)
        ensures
            r == ConfigKey::parse_spec(s@),
    {
        if str_eq(s, ConfigKey::Name.as_str()) {
            Some(ConfigKey::Name)
        } else if str_eq(s, ConfigKey::Email.as_str()) {
            Some(ConfigKey::Email)
        } else if str_eq(s, ConfigKey::SigningKey.as_str()) {
            Some(ConfigKey::SigningKey)
        } else if str_eq(s, ConfigKey::SshKey.as_str()) {
            Some(ConfigKey::SshKey)
        } else {
            None
        }
    }
}

/// No field segment holds the separator.
pub proof fn lemma_segment_has_no_dot(f: ConfigKey)
    ensures
        !f.segment().contains('.'),
{
    let s = f.segment();
    assert forall|j: int| 0 <= j < s.len() implies s[j] != '.' by {}
}

/// A segment names a field exactly when it is that field's segment.
pub proof fn lemma_parse_segment(f: ConfigKey)
    ensures
        ConfigKey::parse_spec(f.segment()) == Some(f),
{
    assert(ConfigKey::Name.segment() != ConfigKey::Email.segment()) by {
        assert(ConfigKey::Name.segment().len() != ConfigKey::Email.segment().len());
    }
    assert(ConfigKey::Name.segment() != ConfigKey::SigningKey.segment()) by {
        assert(ConfigKey::Name.segment().len() != ConfigKey::SigningKey.segment().len());
    }
    assert(ConfigKey::Name.segment() != ConfigKey::SshKey.segment()) by {
        assert(ConfigKey::Name.segment().len() != ConfigKey::SshKey.segment().len());
    }
    assert(ConfigKey::Email.segment() != ConfigKey::SigningKey.segment()) by {
        assert(ConfigKey::Email.segment().len() != ConfigKey::SigningKey.segment().len());
    }
    assert(ConfigKey::Email.segment() != ConfigKey::SshKey.segment()) by {
        assert(ConfigKey::Email.segment().len() != ConfigKey::SshKey.segment().len());
    }
    assert(ConfigKey::SigningKey.segment() != ConfigKey::SshKey.segment()) by {
        assert(ConfigKey::SigningKey.segment().len() != ConfigKey::SshKey.segment().len());
    }
}

} // verus!
