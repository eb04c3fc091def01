//! The configuration value tree: a closed sum type mirroring a JSON document,
//! together with its mathematical model.

use vstd::prelude::*;

verus! {

broadcast use vstd::std_specs::vec::axiom_vec_index_decreases;

/// Mathematical model of a JSON number: a signed integer, an unsigned integer
/// too large for `i64`, or a floating-point number represented by its shortest
/// round-trip decimal text.
pub enum NumModel {
    Int(i64),
    UInt(u64),
    Float(Seq<char>),
}

/// Mathematical model of a configuration value: a finite JSON tree.
/// Object entries are kept as an ordered sequence of key/value pairs.
pub enum ValModel {
    Null,
    Bool(bool),
    Num(NumModel),
    Str(Seq<char>),
    Arr(Seq<ValModel>),
    Obj(Seq<(Seq<char>, ValModel)>),
}

/// A JSON number as stored in the table. A floating-point number is carried as
/// its shortest round-trip decimal text, so that no floating-point value ever
/// enters the verified library.
#[derive(Debug)]
pub enum ConfigNum {
    Int(i64),
    UInt(u64),
    Float(String),
}

impl ConfigNum {
    /// The mathematical model of this number.
    pub open spec fn model(self) -> NumModel {
        match self {
            ConfigNum::Int(i) => NumModel::Int(i),
            ConfigNum::UInt(u) => NumModel::UInt(u),
            ConfigNum::Float(s) => NumModel::Float(s@),
        }
    }
}

/// A configuration value: null, boolean, number, string, array of values, or
/// object (a sequence of key/value entries with pairwise-distinct keys).
#[derive(Debug)]
pub enum ConfigValue {
    Null,
    Bool(bool),
    Num(ConfigNum),
    Str(String),
    Arr(Vec<ConfigValue>),
    Obj(Vec<(String, ConfigValue)>),
}

impl ConfigValue {
    /// The mathematical model of this value: the JSON tree it represents.
    pub open spec fn model(self) -> ValModel
        decreases self,
    {
        match self {
            ConfigValue::Null => ValModel::Null,
            ConfigValue::Bool(b) => ValModel::Bool(b),
            ConfigValue::Num(n) => ValModel::Num(n.model()),
            ConfigValue::Str(s) => ValModel::Str(s@),
            ConfigValue::Arr(vs) => ValModel::Arr(
                Seq::new(
                    vs@.len(),
                    |i: int|
                        if 0 <= i < vs.len() {
                            vs[i].model()
                        } else {
                            ValModel::Null
                        },
                ),
            ),
            ConfigValue::Obj(es) => ValModel::Obj(
                Seq::new(
                    es@.len(),
                    |i: int|
                        if 0 <= i < es.len() {
                            (es[i].0@, es[i].1.model())
                        } else {
                            (Seq::empty(), ValModel::Null)
                        },
                ),
            ),
        }
    }
}

impl Clone for ConfigNum {
    /// Cloning keeps the mathematical model.
    fn clone(&self) -> (res: Self)
        ensures
            res.model() == self.model(),
    {
        match self {
            ConfigNum::Int(i) => ConfigNum::Int(*i),
            ConfigNum::UInt(u) => ConfigNum::UInt(*u),
            ConfigNum::Float(s) => ConfigNum::Float(s.clone()),
        }
    }
}

impl Clone for ConfigValue {
    /// Cloning keeps the mathematical model.
    fn clone(&self) -> (res: Self)
        ensures
            res.model() == self.model(),
        decreases *self, 1int,
    {
        match self {
            ConfigValue::Null => ConfigValue::Null,
            ConfigValue::Bool(b) => ConfigValue::Bool(*b),
            ConfigValue::Num(n) => ConfigValue::Num(n.clone()),
            ConfigValue::Str(s) => ConfigValue::Str(s.clone()),
            ConfigValue::Arr(vs) => {
                let copy = clone_vals(vs);
                proof {
                    lemma_arr_model(*vs);
                    lemma_arr_model(copy);
                }
                ConfigValue::Arr(copy)
            },
            ConfigValue::Obj(es) => {
                let copy = clone_entries(es);
                proof {
                    lemma_obj_model(*es);
                    lemma_obj_model(copy);
                }
                ConfigValue::Obj(copy)
            },
        }
    }
}

/// Clones a vector of values, keeping each element's model.
fn clone_vals(vs: &Vec<ConfigValue>) -> (res: Vec<ConfigValue>)
    ensures
        vals_model(res@) == vals_model(vs@),
    decreases *vs, 0int,
{
    let mut out: Vec<ConfigValue> = Vec::new();
    let mut i: usize = 0;
    while i < vs.len()
        invariant
            i <= vs.len(),
            out@.len() == i,
            forall|j: int| 0 <= j < i ==> out@[j].model() == vs@[j].model(),
        decreases vs.len() - i,
    {
        out.push(vs[i].clone());
        i = i + 1;
    }
    proof {
        assert(vals_model(out@) =~= vals_model(vs@));
    }
    out
}

/// Clones a vector of key/value entries, keeping each entry's key and model.
pub(crate) fn clone_entries(es: &Vec<(String, ConfigValue)>) -> (res: Vec<(String, ConfigValue)>)
    ensures
        entries_model(res@) == entries_model(es@),
    decreases *es, 0int,
{
    let mut out: Vec<(String, ConfigValue)> = Vec::new();
    let mut i: usize = 0;
    while i < es.len()
        invariant
            i <= es.len(),
            out@.len() == i,
            forall|j: int| 0 <= j < i
                ==> out@[j].0@ == es@[j].0@ && out@[j].1.model() == es@[j].1.model(),
        decreases es.len() - i,
    {
        let key = es[i].0.clone();
        let val = es[i].1.clone();
        out.push((key, val));
        i = i + 1;
    }
    proof {
        assert(entries_model(out@) =~= entries_model(es@));
    }
    out
}

/// The models of a sequence of values, element by element.
pub open spec fn vals_model(s: Seq<ConfigValue>) -> Seq<ValModel> {
    Seq::new(s.len(), |i: int| s[i].model())
}

/// The models of a sequence of key/value entries, entry by entry.
pub open spec fn entries_model(s: Seq<(String, ConfigValue)>) -> Seq<(Seq<char>, ValModel)> {
    Seq::new(s.len(), |i: int| (s[i].0@, s[i].1.model()))
}

/// The models of a sequence of numbers, element by element.
pub open spec fn nums_model(s: Seq<ConfigNum>) -> Seq<NumModel> {
    Seq::new(s.len(), |i: int| s[i].model())
}

/// The string elements of an array's model, in order; everything else is
/// dropped.
pub open spec fn string_items(s: Seq<ValModel>) -> Seq<Seq<char>>
    decreases s.len(),
{
    if s.len() == 0 {
        Seq::empty()
    } else {
        let rest = string_items(s.drop_last());
        match s.last() {
            ValModel::Str(t) => rest.push(t),
            _ => rest,
        }
    }
}

/// The elements of an array's model that are integers fitting in an `i64`, in
/// order; everything else is dropped.
pub open spec fn int_items(s: Seq<ValModel>) -> Seq<i64>
    decreases s.len(),
{
    if s.len() == 0 {
        Seq::empty()
    } else {
        let rest = int_items(s.drop_last());
        match s.last() {
            ValModel::Num(NumModel::Int(i)) => rest.push(i),
            _ => rest,
        }
    }
}

/// The numeric elements of an array's model, in order; everything else is
/// dropped.
pub open spec fn num_items(s: Seq<ValModel>) -> Seq<NumModel>
    decreases s.len(),
{
    if s.len() == 0 {
        Seq::empty()
    } else {
        let rest = num_items(s.drop_last());
        match s.last() {
            ValModel::Num(n) => rest.push(n),
            _ => rest,
        }
    }
}

/// The object elements of an array's model, in order; everything else is
/// dropped.
pub open spec fn object_items(s: Seq<ValModel>) -> Seq<ValModel>
    decreases s.len(),
{
    if s.len() == 0 {
        Seq::empty()
    } else {
        let rest = object_items(s.drop_last());
        match s.last() {
            ValModel::Obj(_) => rest.push(s.last()),
            _ => rest,
        }
    }
}

/// The model of an array value is the element-wise model of its elements.
pub proof fn lemma_arr_model(vs: Vec<ConfigValue>)
    ensures
        ConfigValue::Arr(vs).model() == ValModel::Arr(vals_model(vs@)),
{
    if let ValModel::Arr(s) = ConfigValue::Arr(vs).model() {
        assert(s =~= vals_model(vs@));
    }
}

/// The model of an object value is the entry-wise model of its entries.
pub proof fn lemma_obj_model(es: Vec<(String, ConfigValue)>)
    ensures
        ConfigValue::Obj(es).model() == ValModel::Obj(entries_model(es@)),
{
    if let ValModel::Obj(s) = ConfigValue::Obj(es).model() {
        assert(s =~= entries_model(es@));
    }
}

} // verus!
