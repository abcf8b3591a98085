//! What holds of adding profiles and listing them, over the map model of the
//! store.
use vstd::prelude::*;
use crate::config_key::{ConfigKey, lemma_parse_segment};
use crate::identity::Identity;
use crate::keys::{
    has_user_prefix, is_field_split, key_spec, lemma_split_is_last_dot, lemma_tag_of_key,
    tag_spec, user_prefix,
};
use crate::profiles::{apply_writes, store_after_add, tags_in, writes_spec};

verus! {

/// Applying the writes of `i` one after another gives the store after adding
/// `i`.
pub proof fn lemma_writes_give_store(m: Map<Seq<char>, Seq<char>>, i: Identity)
    ensures
        apply_writes(m, writes_spec(i)) == store_after_add(m, i),
{
    let ws = writes_spec(i);
    reveal_with_fuel(apply_writes, 5);
    assert(ws.take(2).drop_last() =~= ws.take(1));
    assert(ws.take(1).drop_last() =~= ws.take(0));
    match (i.signing_key, i.ssh_key) {
        (Some(_), Some(_)) => {
            assert(ws.drop_last() =~= ws.take(3));
            assert(ws.take(3).drop_last() =~= ws.take(2));
        },
        (Some(_), None) => {
            assert(ws.drop_last() =~= ws.take(2));
        },
        (None, Some(_)) => {
            assert(ws.drop_last() =~= ws.take(2));
        },
        (None, None) => {
            assert(ws.drop_last() =~= ws.take(1));
        },
    }
    assert(apply_writes(m, ws.take(0)) == m);
    assert(apply_writes(m, ws.take(1)) == m.insert(ws[0].0, ws[0].1));
}

/// Distinct (profile, field) pairs are stored under distinct keys.
pub proof fn lemma_key_injective(id1: Seq<char>, f1: ConfigKey, id2: Seq<char>, f2: ConfigKey)
    requires
        key_spec(id1, f1) == key_spec(id2, f2),
    ensures
        id1 == id2,
        f1 == f2,
{
    lemma_tag_of_key(id1, f1);
    lemma_tag_of_key(id2, f2);
    let k = key_spec(id1, f1);
    let p: int = 5 + id1.len() as int;
    assert(k.subrange(p + 1, k.len() as int) =~= f1.segment());
    assert(k.subrange(p + 1, k.len() as int) =~= f2.segment());
    lemma_parse_segment(f1);
    lemma_parse_segment(f2);
}

/// Adding a profile lists exactly its id besides the tags already there: an id
/// that holds dots comes back whole, not split.
pub proof fn lemma_add_lists_id(m: Map<Seq<char>, Seq<char>>, i: Identity)
    ensures
        tags_in(store_after_add(m, i)) == tags_in(m).insert(i.id@),
{
    let m2 = store_after_add(m, i);
    lemma_tag_of_key(i.id@, ConfigKey::Name);
    lemma_tag_of_key(i.id@, ConfigKey::Email);
    lemma_tag_of_key(i.id@, ConfigKey::SigningKey);
    lemma_tag_of_key(i.id@, ConfigKey::SshKey);
    assert forall|t: Seq<char>| tags_in(m2).contains(t) <==> tags_in(m).insert(i.id@).contains(t) by {
        if tags_in(m2).contains(t) && t != i.id@ {
            let k = choose|k: Seq<char>| m2.dom().contains(k) && tag_spec(k) == Some(t);
            assert(m.dom().contains(k));
        }
        if tags_in(m).contains(t) {
            let k = choose|k: Seq<char>| m.dom().contains(k) && tag_spec(k) == Some(t);
            assert(m2.dom().contains(k));
        }
        if t == i.id@ {
            assert(m2.dom().contains(key_spec(i.id@, ConfigKey::Name)));
        }
    }
    assert(tags_in(m2) =~= tags_in(m).insert(i.id@));
}

/// After adding two profiles with distinct ids, both ids are listed, as two
/// tags.
pub proof fn lemma_two_profiles_listed(m: Map<Seq<char>, Seq<char>>, i1: Identity, i2: Identity)
    requires
        i1.id@ != i2.id@,
    ensures
        tags_in(store_after_add(store_after_add(m, i1), i2)).contains(i1.id@),
        tags_in(store_after_add(store_after_add(m, i1), i2)).contains(i2.id@),
{
    lemma_add_lists_id(m, i1);
    lemma_add_lists_id(store_after_add(m, i1), i2);
}

/// Adding the same identity twice leaves the store as adding it once.
pub proof fn lemma_add_idempotent(m: Map<Seq<char>, Seq<char>>, i: Identity)
    ensures
        store_after_add(store_after_add(m, i), i) == store_after_add(m, i),
{
    assert(store_after_add(store_after_add(m, i), i) =~= store_after_add(m, i));
}

/// A signing key stored for a profile survives a later add of the same id that
/// carries none.
pub proof fn lemma_absent_signing_key_kept(
    m: Map<Seq<char>, Seq<char>>,
    i: Identity,
    j: Identity,
    k: String,
)
    requires
        i.signing_key == Some(k),
        j.id@ == i.id@,
        j.signing_key is None,
    ensures
        store_after_add(store_after_add(m, i), j).dom().contains(
            key_spec(i.id@, ConfigKey::SigningKey),
        ),
        store_after_add(store_after_add(m, i), j)[key_spec(i.id@, ConfigKey::SigningKey)] == k@,
{
    let sk = key_spec(i.id@, ConfigKey::SigningKey);
    if sk == key_spec(i.id@, ConfigKey::Name) {
        lemma_key_injective(i.id@, ConfigKey::SigningKey, i.id@, ConfigKey::Name);
    }
    if sk == key_spec(i.id@, ConfigKey::Email) {
        lemma_key_injective(i.id@, ConfigKey::SigningKey, i.id@, ConfigKey::Email);
    }
    if sk == key_spec(i.id@, ConfigKey::SshKey) {
        lemma_key_injective(i.id@, ConfigKey::SigningKey, i.id@, ConfigKey::SshKey);
    }
}

/// A key under `user.` whose last segment is not a field has no tag.
pub proof fn lemma_unrecognized_field_has_no_tag(x: Seq<char>, s: Seq<char>)
    requires
        !s.contains('.'),
        ConfigKey::parse_spec(s) is None,
    ensures
        tag_spec(user_prefix() + x + seq!['.'] + s) is None,
{
    let k = user_prefix() + x + seq!['.'] + s;
    let q: int = 5 + x.len() as int;
    if exists|p: int| is_field_split(k, p) {
        let p = choose|p: int| is_field_split(k, p);
        if p < q {
            lemma_split_is_last_dot(k, p, q);
        } else if p > q {
            assert(s[p - q - 1] == k[p]);
        } else {
            assert(k.subrange(p + 1, k.len() as int) =~= s);
        }
    }
}

/// A key under `user.` whose last segment is not one of the fields neither
/// shows up in nor changes the listed tags.
pub proof fn lemma_foreign_key_ignored(
    m: Map<Seq<char>, Seq<char>>,
    x: Seq<char>,
    s: Seq<char>,
    v: Seq<char>,
)
    requires
        !s.contains('.'),
        ConfigKey::parse_spec(s) is None,
    ensures
        tags_in(m.insert(user_prefix() + x + seq!['.'] + s, v)) == tags_in(m),
{
    let k = user_prefix() + x + seq!['.'] + s;
    lemma_unrecognized_field_has_no_tag(x, s);
    let m2 = m.insert(k, v);
    assert forall|t: Seq<char>| tags_in(m2).contains(t) <==> tags_in(m).contains(t) by {
        if tags_in(m2).contains(t) {
            let k2 = choose|k2: Seq<char>| m2.dom().contains(k2) && tag_spec(k2) == Some(t);
            assert(m.dom().contains(k2));
        }
        if tags_in(m).contains(t) {
            let k2 = choose|k2: Seq<char>| m.dom().contains(k2) && tag_spec(k2) == Some(t);
            assert(m2.dom().contains(k2));
        }
    }
    assert(tags_in(m2) =~= tags_in(m));
}

/// A store with no key under `user.` lists no tag.
pub proof fn lemma_no_user_keys_no_tags(m: Map<Seq<char>, Seq<char>>)
    requires
        forall|k: Seq<char>| m.dom().contains(k) ==> !has_user_prefix(k),
    ensures
        tags_in(m) == Set::<Seq<char>>::empty(),
{
    assert(tags_in(m) =~= Set::<Seq<char>>::empty());
}

} // verus!
