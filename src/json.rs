use vstd::prelude::*;
use vstd::string::*;
use crate::archive::strings_view;
use crate::config::{decimal, decimal_string};

verus! {

/// A JSON document, as the configuration file holds it. Numbers keep their
/// JSON text.
#[derive(Debug)]
pub enum JsonValue {
    Null,
    Bool(bool),
    Number(String),
    Text(String),
    Array(Vec<JsonValue>),
    Object(Vec<JsonMember>),
}

/// One `"key": value` pair of an object.
#[derive(Debug)]
pub struct JsonMember {
    pub key: String,
    pub value: JsonValue,
}

/// The value under the last member of `ms[..n]` called `k`.
pub open spec fn member_value(ms: Seq<JsonMember>, k: Seq<char>, n: int) -> Option<JsonValue>
    decreases n,
{
    if n <= 0 {
        None
    } else if ms[n - 1].key@ == k {
        Some(ms[n - 1].value)
    } else {
        member_value(ms, k, n - 1)
    }
}

/// `path.key`, or `key` at the top.
pub open spec fn key_path(path: Seq<char>, k: Seq<char>) -> Seq<char> {
    if path.len() == 0 {
        k
    } else {
        path + seq!['.'] + k
    }
}

/// `path[i]`.
pub open spec fn index_path(path: Seq<char>, i: nat) -> Seq<char> {
    path + seq!['['] + decimal(i) + seq![']']
}

/// The paths of the user's keys that the default document does not have,
/// in document order. Inside an array, every element is held against the
/// default's first element.
pub open spec fn unknown_keys(def: JsonValue, usr: JsonValue, path: Seq<char>) -> Seq<Seq<char>>
    decreases usr,
{
    match usr {
        JsonValue::Object(mu) => match def {
            JsonValue::Object(md) => unknown_in_members(md@, mu@, path, mu@.len() as int),
            _ => all_keys(mu@, path, mu@.len() as int),
        },
        JsonValue::Array(au) => match def {
            JsonValue::Array(ad) => if ad@.len() > 0 {
                unknown_in_elements(ad@[0], au@, path, au@.len() as int)
            } else {
                Seq::empty()
            },
            _ => Seq::empty(),
        },
        _ => Seq::empty(),
    }
}

/// The unknown paths among the first `n` members of a user object.
pub open spec fn unknown_in_members(md: Seq<JsonMember>, mu: Seq<JsonMember>, path: Seq<char>, n: int) -> Seq<Seq<char>>
    decreases mu, n,
{
    if n <= 0 || n > mu.len() {
        Seq::empty()
    } else {
        let m = mu[n - 1];
        unknown_in_members(md, mu, path, n - 1) + match member_value(md, m.key@, md.len() as int) {
            Some(d) => unknown_keys(d, m.value, key_path(path, m.key@)),
            None => seq![key_path(path, m.key@)],
        }
    }
}

/// The unknown paths among the first `n` elements of a user array.
pub open spec fn unknown_in_elements(d: JsonValue, au: Seq<JsonValue>, path: Seq<char>, n: int) -> Seq<Seq<char>>
    decreases au, n,
{
    if n <= 0 || n > au.len() {
        Seq::empty()
    } else {
        unknown_in_elements(d, au, path, n - 1) + unknown_keys(d, au[n - 1], index_path(path, (n - 1) as nat))
    }
}

/// The paths of the first `n` keys of an object.
pub open spec fn all_keys(mu: Seq<JsonMember>, path: Seq<char>, n: int) -> Seq<Seq<char>>
    decreases n,
{
    if n <= 0 || n > mu.len() {
        Seq::empty()
    } else {
        all_keys(mu, path, n - 1).push(key_path(path, mu[n - 1].key@))
    }
}

fn key_path_text(path: &String, k: &String) -> (r: String)
    ensures
        r@ == key_path(path@, k@),
{
    if path.as_str().is_empty() {
        return k.clone();
    }
    proof {
        reveal_strlit(".");
    }
    let mut r = path.clone();
    r.append(".");
    r.append(k.as_str());
    r
}

fn index_path_text(path: &String, i: usize) -> (r: String)
    ensures
        r@ == index_path(path@, i as nat),
{
    proof {
        reveal_strlit("[");
        reveal_strlit("]");
    }
    let mut r = path.clone();
    r.append("[");
    let d = decimal_string(i as u64);
    r.append(d.as_str());
    r.append("]");
    r
}

fn find_member<'a>(md: &'a Vec<JsonMember>, k: &String) -> (r: Option<&'a JsonValue>)
    ensures
        match r {
            Some(v) => member_value(md@, k@, md@.len() as int) == Some(*v),
            None => member_value(md@, k@, md@.len() as int) is None,
        },
{
    let mut i = md.len();
    while i > 0
        invariant
            i <= md@.len(),
            member_value(md@, k@, md@.len() as int) == member_value(md@, k@, i as int),
        decreases i,
    {
        if md[i - 1].key == *k {
            return Some(&md[i - 1].value);
        }
        i = i - 1;
    }
    None
}

fn collect_unknown(def: &JsonValue, usr: &JsonValue, path: &String, warns: &mut Vec<String>)
    ensures
        strings_view(final(warns)@) == strings_view(old(warns)@) + unknown_keys(*def, *usr, path@),
    decreases usr,
{
    let ghost start = strings_view(warns@);
    match usr {
        JsonValue::Object(mu) => {
            match def {
                JsonValue::Object(md) => {
                    let mut j: usize = 0;
                    while j < mu.len()
                        invariant
                            *usr == JsonValue::Object(*mu),
                            j <= mu@.len(),
                            strings_view(warns@) == start + unknown_in_members(md@, mu@, path@, j as int),
                        decreases mu@.len() - j,
                    {
                        let m = &mu[j];
                        let ghost before = strings_view(warns@);
                        let p = key_path_text(path, &m.key);
                        match find_member(md, &m.key) {
                            Some(d) => {
                                proof {
                                    assert(decreases_to!(*usr => (*usr)->Object_0));
                                    assert((*usr)->Object_0 == *mu);
                                    assert(decreases_to!(*mu => mu@));
                                    assert(decreases_to!(mu@ => mu@[j as int]));
                                    assert(decreases_to!(mu@[j as int] => mu@[j as int].value));
                                    assert(decreases_to!(*usr => mu@[j as int].value));
                                }
                                collect_unknown(d, &m.value, &p, warns);
                            },
                            None => {
                                warns.push(p);
                                assert(strings_view(warns@) =~= before + seq![key_path(path@, m.key@)]);
                            },
                        }
                        assert(start + unknown_in_members(md@, mu@, path@, j + 1) =~= before + match member_value(
                            md@,
                            m.key@,
                            md@.len() as int,
                        ) {
                            Some(d) => unknown_keys(d, m.value, key_path(path@, m.key@)),
                            None => seq![key_path(path@, m.key@)],
                        });
                        j = j + 1;
                    }
                },
                _ => {
                    let mut j: usize = 0;
                    while j < mu.len()
                        invariant
                            j <= mu@.len(),
                            strings_view(warns@) == start + all_keys(mu@, path@, j as int),
                        decreases mu@.len() - j,
                    {
                        let ghost before = strings_view(warns@);
                        let p = key_path_text(path, &mu[j].key);
                        warns.push(p);
                        assert(strings_view(warns@) =~= before.push(key_path(path@, mu@[j as int].key@)));
                        j = j + 1;
                    }
                },
            }
        },
        JsonValue::Array(au) => {
            match def {
                JsonValue::Array(ad) => {
                    if ad.len() > 0 {
                        let d = &ad[0];
                        let mut j: usize = 0;
                        while j < au.len()
                            invariant
                                *usr == JsonValue::Array(*au),
                                ad@.len() > 0,
                                *d == ad@[0],
                                j <= au@.len(),
                                strings_view(warns@) == start + unknown_in_elements(ad@[0], au@, path@, j as int),
                            decreases au@.len() - j,
                        {
                            let ghost before = strings_view(warns@);
                            let p = index_path_text(path, j);
                            proof {
                                assert(decreases_to!(*usr => (*usr)->Array_0));
                                assert((*usr)->Array_0 == *au);
                                assert(decreases_to!(*au => au@));
                                assert(decreases_to!(au@ => au@[j as int]));
                                assert(decreases_to!(*usr => au@[j as int]));
                            }
                            collect_unknown(d, &au[j], &p, warns);
                            assert(start + unknown_in_elements(ad@[0], au@, path@, j + 1) =~= before + unknown_keys(
                                ad@[0],
                                au@[j as int],
                                index_path(path@, j as nat),
                            ));
                            j = j + 1;
                        }
                    } else {
                        assert(strings_view(warns@) =~= start + Seq::<Seq<char>>::empty());
                    }
                },
                _ => {
                    assert(strings_view(warns@) =~= start + Seq::<Seq<char>>::empty());
                },
            }
        },
        _ => {
            assert(strings_view(warns@) =~= start + Seq::<Seq<char>>::empty());
        },
    }
}

/// The keys of the user's configuration `user` that the default
/// configuration `defaults` does not know, as dotted paths (`server.typo`,
/// `storage.db[1].extra`).
pub fn check_unknown_keys(defaults: &JsonValue, user: &JsonValue) -> (r: Vec<String>)
    ensures
        strings_view(r@) == unknown_keys(*defaults, *user, Seq::empty()),
{
    let mut warns: Vec<String> = Vec::new();
    let top = String::new();
    collect_unknown(defaults, user, &top, &mut warns);
    assert(strings_view(Seq::<String>::empty()) + unknown_keys(*defaults, *user, Seq::empty()) =~= unknown_keys(
        *defaults,
        *user,
        Seq::empty(),
    ));
    warns
}

} // verus!
