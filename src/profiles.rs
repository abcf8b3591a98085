//! Profiles in the flat store: which writes adding an identity makes, which
//! tags a list of stored key names holds, and the laws that relate the two
//! over a map model of the store.
use vstd::prelude::*;
use crate::config_key::ConfigKey;
use crate::identity::Identity;
use crate::keys::{key_for, key_spec, profile_tag, tag_spec};

verus! {

/// The texts of a sequence of strings.
pub open spec fn views(v: Seq<String>) -> Seq<Seq<char>> {
    v.map_values(|s: String| s@)
}

/// The texts of a sequence of key/value pairs.
pub open spec fn pair_views(v: Seq<(String, String)>) -> Seq<(Seq<char>, Seq<char>)> {
    v.map_values(|p: (String, String)| (p.0@, p.1@))
}

/// The writes that adding `i` makes, in order: name and email always, then the
/// signing key and the SSH key where present.
pub open spec fn writes_spec(i: Identity) -> Seq<(Seq<char>, Seq<char>)> {
    let base = seq![
        (key_spec(i.id@, ConfigKey::Name), i.name@),
        (key_spec(i.id@, ConfigKey::Email), i.email@),
    ];
    let with_signing = match i.signing_key {
        Some(k) => base.push((key_spec(i.id@, ConfigKey::SigningKey), k@)),
        None => base,
    };
    match i.ssh_key {
        Some(p) => with_signing.push((key_spec(i.id@, ConfigKey::SshKey), p@)),
        None => with_signing,
    }
}

/// The store after the writes `ws`, each overwriting its key.
pub open spec fn apply_writes(
    m: Map<Seq<char>, Seq<char>>,
    ws: Seq<(Seq<char>, Seq<char>)>,
) -> Map<Seq<char>, Seq<char>>
    decreases ws.len(),
{
    if ws.len() == 0 {
        m
    } else {
        apply_writes(m, ws.drop_last()).insert(ws.last().0, ws.last().1)
    }
}

/// The store after adding `i`: its required fields overwritten, its optional
/// ones overwritten where present and left as they were where absent.
pub open spec fn store_after_add(m: Map<Seq<char>, Seq<char>>, i: Identity) -> Map<
    Seq<char>,
    Seq<char>,
> {
    let m1 = m.insert(key_spec(i.id@, ConfigKey::Name), i.name@).insert(
        key_spec(i.id@, ConfigKey::Email),
        i.email@,
    );
    let m2 = match i.signing_key {
        Some(k) => m1.insert(key_spec(i.id@, ConfigKey::SigningKey), k@),
        None => m1,
    };
    match i.ssh_key {
        Some(p) => m2.insert(key_spec(i.id@, ConfigKey::SshKey), p@),
        None => m2,
    }
}

/// The distinct profile tags among a set of key names.
pub open spec fn tags_of(keys: Set<Seq<char>>) -> Set<Seq<char>> {
    Set::new(|t: Seq<char>| exists|k: Seq<char>| keys.contains(k) && tag_spec(k) == Some(t))
}

/// The distinct profile tags of a store.
pub open spec fn tags_in(m: Map<Seq<char>, Seq<char>>) -> Set<Seq<char>> {
    tags_of(m.dom())
}

/// The key/value writes that adding `identity` makes, in the order they are
/// to be applied.
pub fn entries_for(identity: &Identity) -> (r: Vec<(String, String)>)
    ensures
        pair_views(r@) == writes_spec(*identity),
{
    let mut r: Vec<(String, String)> = Vec::new();
    r.push((key_for(identity.id.as_str(), ConfigKey::Name), identity.name.clone()));
    r.push((key_for(identity.id.as_str(), ConfigKey::Email), identity.email.clone()));
    match &identity.signing_key {
        Some(k) => {
            r.push((key_for(identity.id.as_str(), ConfigKey::SigningKey), k.clone()));
        },
        None => {},
    }
    match &identity.ssh_key {
        Some(p) => {
            r.push((key_for(identity.id.as_str(), ConfigKey::SshKey), p.clone()));
        },
        None => {},
    }
    assert(pair_views(r@) =~= writes_spec(*identity));
    r
}

/// Whether `v` holds a string with the text of `s`.
fn contains_text(v: &Vec<String>, s: &String) -> (r: bool)
    ensures
        r == views(v@).contains(s@),
{
    let mut i: usize = 0;
    while i < v.len()
        invariant
            i <= v@.len(),
            forall|j: int| 0 <= j < i ==> v@[j]@ != s@,
        decreases v@.len() - i,
    {
        if v[i] == *s {
            assert(views(v@)[i as int] == s@);
            return true;
        }
        i = i + 1;
    }
    proof {
        if views(v@).contains(s@) {
            let j = choose|j: int| 0 <= j < views(v@).len() && views(v@)[j] == s@;
            assert(v@[j]@ == s@);
        }
    }
    false
}

/// The tags of the key names `ks`, each once, in the order of the first key
/// that carries it.
pub open spec fn listed_spec(ks: Seq<Seq<char>>) -> Seq<Seq<char>>
    decreases ks.len(),
{
    if ks.len() == 0 {
        Seq::empty()
    } else {
        let earlier = listed_spec(ks.drop_last());
        match tag_spec(ks.last()) {
            Some(t) => if earlier.contains(t) {
                earlier
            } else {
                earlier.push(t)
            },
            None => earlier,
        }
    }
}

/// The distinct profile tags among the stored key names `names`, each once,
/// in the order of the first name that carries it.
pub fn list_identities(names: &Vec<String>) -> (r: Vec<String>)
    ensures
        views(r@).no_duplicates(),
        views(r@).to_set() == tags_of(views(names@).to_set()),
        views(r@) == listed_spec(views(names@)),
{
    let mut r: Vec<String> = Vec::new();
    let mut i: usize = 0;
    while i < names.len()
        invariant
            i <= names@.len(),
            views(r@).no_duplicates(),
            views(r@) == listed_spec(views(names@).take(i as int)),
            forall|t: Seq<char>|
                views(r@).contains(t) <==> exists|j: int|
                    0 <= j < i && tag_spec(#[trigger] names@[j]@) == Some(t),
        decreases names@.len() - i,
    {
        let ghost before = r@;
        assert(views(names@).take(i + 1).drop_last() =~= views(names@).take(i as int));
        assert(views(names@).take(i + 1).last() == names@[i as int]@);
        match profile_tag(names[i].as_str()) {
            Some(t) => {
                if !contains_text(&r, &t) {
                    r.push(t);
                    assert(views(r@) =~= views(before).push(t@));
                    assert(views(r@).last() == t@);
                }
                assert(views(r@).contains(t@));
                assert(forall|x: Seq<char>|
                    #[trigger] views(r@).contains(x) ==> views(before).contains(x) || x == t@);
                assert(forall|x: Seq<char>|
                    #[trigger] views(before).contains(x) ==> views(r@).contains(x)) by {
                    assert forall|x: Seq<char>| #[trigger] views(before).contains(x) implies views(r@).contains(x) by {
                        let j = choose|j: int| 0 <= j < views(before).len() && views(before)[j] == x;
                        assert(views(r@)[j] == x);
                    }
                }
            },
            None => {},
        }
        proof {
            assert forall|t: Seq<char>|
                views(r@).contains(t) <==> exists|j: int|
                    0 <= j < i + 1 && tag_spec(#[trigger] names@[j]@) == Some(t) by {
                if views(r@).contains(t) && !views(before).contains(t) {
                    assert(tag_spec(names@[i as int]@) == Some(t));
                }
                if exists|j: int| 0 <= j < i + 1 && tag_spec(#[trigger] names@[j]@) == Some(t) {
                    let j = choose|j: int| 0 <= j < i + 1 && tag_spec(#[trigger] names@[j]@) == Some(t);
                    if j < i {
                        assert(views(before).contains(t));
                    }
                }
            }
        }
        i = i + 1;
    }
    proof {
        let ks = views(names@).to_set();
        assert forall|t: Seq<char>| views(r@).to_set().contains(t) <==> tags_of(ks).contains(t) by {
            if views(r@).contains(t) {
                let j = choose|j: int| 0 <= j < names@.len() && tag_spec(#[trigger] names@[j]@) == Some(t);
                assert(views(names@)[j] == names@[j]@);
                assert(ks.contains(names@[j]@));
            }
            if tags_of(ks).contains(t) {
                let k = choose|k: Seq<char>| ks.contains(k) && tag_spec(k) == Some(t);
                let j = choose|j: int| 0 <= j < views(names@).len() && views(names@)[j] == k;
                assert(names@[j]@ == k);
            }
        }
        assert(views(r@).to_set() =~= tags_of(views(names@).to_set()));
        assert(views(names@).take(names@.len() as int) =~= views(names@));
    }
    r
}

} // verus!
