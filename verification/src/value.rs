//! The open-ended structured configuration value: a tree of null, boolean,
//! integer, string, array and object nodes, together with its spec-level
//! mirror [`Jv`] and the shallow-merge operation used by partial updates.
//!
//! A shallow merge applies every top-level key of an object patch onto an
//! object base, replacing nested structures wholesale; a patch that is not an
//! object leaves the base untouched.

use vstd::prelude::*;

use crate::kv::{kv_merge, kv_set};
use vstd::pervasive::VecAdditionalExecFns;

verus! {

/// An open-ended structured value.
#[derive(Debug, PartialEq, Eq)]
pub enum ConfigValue {
    Null,
    Bool(bool),
    Int(i64),
    Str(String),
    Arr(Vec<ConfigValue>),
    Obj(Vec<(String, ConfigValue)>),
}

/// The spec-level mirror of [`ConfigValue`].
#[verifier::ext_equal]
pub enum Jv {
    Null,
    Bool(bool),
    Int(int),
    Str(Seq<char>),
    Arr(Seq<Jv>),
    Obj(Seq<(Seq<char>, Jv)>),
}

/// The spec-level mirror of an object pair list.
pub open spec fn obj_dv(ms: Seq<(String, ConfigValue)>) -> Seq<(Seq<char>, Jv)>
    decreases ms,
{
    Seq::new(
        ms.len(),
        |i: int|
            if 0 <= i < ms.len() {
                (ms[i].0@, ms[i].1.dv())
            } else {
                arbitrary()
            },
    )
}

/// The spec-level mirror of a value list.
pub open spec fn arr_dv(vs: Seq<ConfigValue>) -> Seq<Jv>
    decreases vs,
{
    Seq::new(
        vs.len(),
        |i: int|
            if 0 <= i < vs.len() {
                vs[i].dv()
            } else {
                arbitrary()
            },
    )
}

impl ConfigValue {
    /// The mathematical value this node stands for.
    pub open spec fn dv(self) -> Jv
        decreases self,
    {
        match self {
            ConfigValue::Null => Jv::Null,
            ConfigValue::Bool(b) => Jv::Bool(b),
            ConfigValue::Int(n) => Jv::Int(n as int),
            ConfigValue::Str(s) => Jv::Str(s@),
            ConfigValue::Arr(vs) => Jv::Arr(arr_dv(vs@)),
            ConfigValue::Obj(ms) => Jv::Obj(obj_dv(ms@)),
        }
    }

    /// Look up a key in an object value; `None` on a missing key or on a
    /// value that is not an object.
    pub fn obj_get<'a>(&'a self, k: &str) -> (r: Option<&'a ConfigValue>)
        ensures
            match self.dv() {
                Jv::Obj(m) => match r {
                    Some(v) => crate::kv::kv_get(m, k@) == Some(v.dv()),
                    None => crate::kv::kv_get(m, k@) is None,
                },
                _ => r is None,
            },
    {
        match self {
            ConfigValue::Obj(ms) => {
                let n = ms.len();
                let mut i: usize = 0;
                while i < n
                    invariant
                        self.dv() == Jv::Obj(obj_dv(ms@)),
                        n == ms@.len(),
                        0 <= i <= n,
                        forall|t: int| 0 <= t < i ==> obj_dv(ms@)[t].0 != k@,
                    decreases n - i,
                {
                    if crate::strutil::str_eq(ms[i].0.as_str(), k) {
                        proof {
                            crate::kv::lemma_kv_get_at(obj_dv(ms@), k@, i as int);
                        }
                        return Some(&ms[i].1);
                    }
                    i = i + 1;
                }
                proof {
                    crate::kv::lemma_kv_get_none(obj_dv(ms@), k@);
                }
                None
            },
            _ => None,
        }
    }

    /// An empty object value.
    pub fn empty_object() -> (r: ConfigValue)
        ensures
            r.dv() == Jv::Obj(Seq::<(Seq<char>, Jv)>::empty()),
    {
        let r = ConfigValue::Obj(Vec::new());
        proof {
            assert(obj_dv(Seq::<(String, ConfigValue)>::empty()) =~= Seq::<(
                Seq<char>,
                Jv,
            )>::empty());
        }
        r
    }
}

impl Clone for ConfigValue {
    /// Deep copy; the copy stands for the same mathematical value.
    fn clone(&self) -> (r: Self)
        ensures
            r.dv() == self.dv(),
        decreases self,
    {
        match self {
            ConfigValue::Null => ConfigValue::Null,
            ConfigValue::Bool(b) => ConfigValue::Bool(*b),
            ConfigValue::Int(n) => ConfigValue::Int(*n),
            ConfigValue::Str(s) => ConfigValue::Str(s.clone()),
            ConfigValue::Arr(vs) => {
                let n = vs.len();
                let mut out: Vec<ConfigValue> = Vec::new();
                let mut i: usize = 0;
                while i < n
                    invariant
                        n == vs@.len(),
                        0 <= i <= n,
                        out@.len() == i,
                        decreases_to!(*self => *vs),
                        forall|t: int| #![trigger out@[t]] 0 <= t < i ==> out@[t].dv() == vs@[t].dv(),
                    decreases n - i,
                {
                    proof {
                        assert(decreases_to!(*vs => vs@[i as int])) by {
                            assert(decreases_to!(*vs => vs@));
                            assert(decreases_to!(vs@ => vs@[i as int]));
                        }
                    }
                    out.push(vs[i].clone());
                    i = i + 1;
                }
                let r = ConfigValue::Arr(out);
                proof {
                    assert forall|t: int| 0 <= t < n implies arr_dv(out@)[t] == arr_dv(vs@)[t] by {
                        assert(out@[t].dv() == vs@[t].dv());
                    }
                    assert(arr_dv(out@) =~= arr_dv(vs@));
                }
                r
            },
            ConfigValue::Obj(ms) => {
                let n = ms.len();
                let mut out: Vec<(String, ConfigValue)> = Vec::new();
                let mut i: usize = 0;
                while i < n
                    invariant
                        n == ms@.len(),
                        0 <= i <= n,
                        out@.len() == i,
                        forall|t: int|
                            #![trigger out@[t]]
                            0 <= t < i ==> out@[t].0@ == ms@[t].0@ && out@[t].1.dv()
                                == ms@[t].1.dv(),
                        decreases_to!(*self => *ms),
                    decreases n - i,
                {
                    proof {
                        assert(decreases_to!(*ms => ms@[i as int].1)) by {
                            assert(decreases_to!(*ms => ms@));
                            assert(decreases_to!(ms@ => ms@[i as int]));
                            assert(decreases_to!(ms@[i as int] => ms@[i as int].1));
                        }
                    }
                    let key = ms[i].0.clone();
                    let val = ms[i].1.clone();
                    out.push((key, val));
                    i = i + 1;
                }
                let r = ConfigValue::Obj(out);
                proof {
                    assert forall|t: int| 0 <= t < n implies obj_dv(out@)[t] == obj_dv(ms@)[t] by {
                        assert(out@[t].0@ == ms@[t].0@ && out@[t].1.dv() == ms@[t].1.dv());
                    }
                    assert(obj_dv(out@) =~= obj_dv(ms@));
                }
                r
            },
        }
    }
}

/// Shallow merge at the spec level: an object patch overwrites the base
/// object key by key; any other patch leaves the base as it is.
pub open spec fn jv_merge(base: Jv, patch: Jv) -> Jv {
    match (base, patch) {
        (Jv::Obj(b), Jv::Obj(p)) => Jv::Obj(kv_merge(b, p)),
        _ => base,
    }
}

/// Replace the value of the first pair keyed `k`, or append the pair.
fn set_pair(ms: &mut Vec<(String, ConfigValue)>, k: String, v: ConfigValue)
    ensures
        obj_dv(final(ms)@) == kv_set(obj_dv(old(ms)@), k@, v.dv()),
{
    let n = ms.len();
    let mut i: usize = 0;
    while i < n
        invariant
            ms@ == old(ms)@,
            n == ms@.len(),
            0 <= i <= n,
            forall|t: int| 0 <= t < i ==> ms@[t].0@ != k@,
        decreases n - i,
    {
        if crate::strutil::str_eq(ms[i].0.as_str(), k.as_str()) {
            let ghost pre = ms@;
            ms.set(i, (k, v));
            proof {
                crate::kv::lemma_kv_set_at(obj_dv(pre), k@, v.dv(), i as int);
                assert(obj_dv(ms@) =~= obj_dv(pre).update(i as int, (k@, v.dv())));
            }
            return ;
        }
        i = i + 1;
    }
    let ghost pre = ms@;
    ms.push((k, v));
    proof {
        crate::kv::lemma_kv_set_absent(obj_dv(pre), k@, v.dv());
        assert(obj_dv(ms@) =~= obj_dv(pre).push((k@, v.dv())));
    }
}

/// Shallow merge of a patch onto a base value.
pub fn merge_value(base: ConfigValue, patch: &ConfigValue) -> (r: ConfigValue)
    ensures
        r.dv() == jv_merge(base.dv(), patch.dv()),
{
    match (base, patch) {
        (ConfigValue::Obj(mut bs), ConfigValue::Obj(ps)) => {
            let ghost base0 = obj_dv(bs@);
            let n = ps.len();
            let mut i: usize = 0;
            while i < n
                invariant
                    n == ps@.len(),
                    0 <= i <= n,
                    obj_dv(bs@) == kv_merge(base0, obj_dv(ps@).subrange(0, i as int)),
                decreases n - i,
            {
                proof {
                    crate::kv::lemma_kv_merge_snoc(base0, obj_dv(ps@).subrange(0, i as int + 1));
                    assert(obj_dv(ps@).subrange(0, i as int + 1).drop_last() =~= obj_dv(
                        ps@,
                    ).subrange(0, i as int));
                }
                let key = ps[i].0.clone();
                let val = ps[i].1.clone();
                set_pair(&mut bs, key, val);
                i = i + 1;
            }
            proof {
                assert(obj_dv(ps@).subrange(0, n as int) =~= obj_dv(ps@));
            }
            ConfigValue::Obj(bs)
        },
        (b, _) => b,
    }
}

} // verus!
