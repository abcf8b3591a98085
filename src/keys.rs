//! The naming scheme that places a profile's fields in the flat namespace:
//! `user.<tag>.<field>`, where the tag may itself hold dots.
use vstd::prelude::*;
use crate::config_key::{ConfigKey, lemma_parse_segment, lemma_segment_has_no_dot};

verus! {

/// The leading `user.` of every profile key.
pub open spec fn user_prefix() -> Seq<char> {
    seq!['u', 's', 'e', 'r', '.']
}

/// The key under which field `f` of profile `id` is stored.
pub open spec fn key_spec(id: Seq<char>, f: ConfigKey) -> Seq<char> {
    user_prefix() + id + seq!['.'] + f.segment()
}

/// `p` is a dot after the `user.` prefix that is followed by a field segment
/// and nothing else.
pub open spec fn is_field_split(k: Seq<char>, p: int) -> bool {
    &&& 5 <= p < k.len()
    &&& k[p] == '.'
    &&& ConfigKey::parse_spec(k.subrange(p + 1, k.len() as int)) is Some
}

/// Whether `k` lies under the `user.` namespace.
pub open spec fn has_user_prefix(k: Seq<char>) -> bool {
    k.len() >= 5 && k.subrange(0, 5) == user_prefix()
}

/// The profile tag of a stored key: everything between the leading `user`
/// segment and a recognized trailing field segment. Keys outside `user.`, with
/// fewer than three segments, or with another last segment have none.
pub open spec fn tag_spec(k: Seq<char>) -> Option<Seq<char>> {
    if has_user_prefix(k) && exists|p: int| is_field_split(k, p) {
        Some(k.subrange(5, choose|p: int| is_field_split(k, p)))
    } else {
        None
    }
}

/// A split point is the last dot of the key.
pub proof fn lemma_split_is_last_dot(k: Seq<char>, p: int, q: int)
    requires
        is_field_split(k, p),
        p < q < k.len(),
    ensures
        k[q] != '.',
{
    let f = ConfigKey::parse_spec(k.subrange(p + 1, k.len() as int))->0;
    lemma_segment_has_no_dot(f);
    let s = k.subrange(p + 1, k.len() as int);
    assert(s == f.segment());
    assert(s[q - p - 1] == k[q]);
}

/// There is at most one split point.
proof fn lemma_split_unique(k: Seq<char>, p: int, q: int)
    requires
        is_field_split(k, p),
        is_field_split(k, q),
    ensures
        p == q,
{
    if p < q {
        lemma_split_is_last_dot(k, p, q);
    } else if q < p {
        lemma_split_is_last_dot(k, q, p);
    }
}

/// The tag of a key built for `id` is `id` itself, dots and all.
pub proof fn lemma_tag_of_key(id: Seq<char>, f: ConfigKey)
    ensures
        tag_spec(key_spec(id, f)) == Some(id),
{
    let k = key_spec(id, f);
    let p: int = 5 + id.len() as int;
    assert(k.subrange(0, 5) =~= user_prefix());
    assert(k.subrange(p + 1, k.len() as int) =~= f.segment());
    lemma_parse_segment(f);
    assert(is_field_split(k, p));
    let c = choose|q: int| is_field_split(k, q);
    lemma_split_unique(k, p, c);
    assert(k.subrange(5, p) =~= id);
}

/// Builds the key of field `f` of profile `id`.
pub fn key_for(id: &str, f: ConfigKey) -> (r: String)
    ensures
        r@ == key_spec(id@, f),
{
    proof {
        reveal_strlit("user.");
        reveal_strlit(".");
    }
    let mut k = String::from_str("user.");
    k.append(id);
    k.append(".");
    k.append(f.as_str());
    assert(k@ =~= key_spec(id@, f));
    k
}

/// Whether `k` starts with `user.`.
fn starts_with_user(k: &str) -> (r: bool)
    ensures
        r == has_user_prefix(k@),
{
    proof {
        reveal_strlit("user.");
    }
    let n = k.unicode_len();
    if n < 5 {
        return false;
    }
    let b = k.substring_char(0, 5);
    let r = crate::chars::str_eq(b, "user.");
    assert("user."@ =~= user_prefix());
    r
}

/// Recovers the profile tag of a stored key name, as `tag_spec` states.
pub fn profile_tag(k: &str) -> (r: Option<String>)
    ensures
        r matches Some(t) ==> tag_spec(k@) == Some(t@),
        r is None ==> tag_spec(k@) is None,
{
    if !starts_with_user(k) {
        return None;
    }
    let n = k.unicode_len();
    // Search backwards for the last dot after the prefix.
    let mut i: usize = n;
    while i > 5 && k.get_char(i - 1) != '.'
        invariant
            n == k@.len(),
            5 <= i <= n,
            forall|q: int| i <= q < n ==> k@[q] != '.',
        decreases i,
    {
        i = i - 1;
    }
    if i == 5 {
        proof {
            if exists|p: int| is_field_split(k@, p) {
                let p = choose|p: int| is_field_split(k@, p);
                assert(k@[p] == '.');
            }
        }
        return None;
    }
    let p: usize = i - 1;
    assert(k@[p as int] == '.');
    let last = k.substring_char(p + 1, n);
    match ConfigKey::from_str(last) {
        Some(_) => {
            assert(is_field_split(k@, p as int));
            let tag = k.substring_char(5, p);
            proof {
                let c = choose|q: int| is_field_split(k@, q);
                lemma_split_unique(k@, p as int, c);
            }
            Some(String::from_str(tag))
        },
        None => {
            proof {
                if exists|q: int| is_field_split(k@, q) {
                    let q = choose|q: int| is_field_split(k@, q);
                    if q < p {
                        lemma_split_is_last_dot(k@, q, p as int);
                    }
                }
            }
            None
        },
    }
}

} // verus!
