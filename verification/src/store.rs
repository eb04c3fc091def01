//! The configuration store: file-name and search-path settings, the key/value
//! table, and the typed accessors.

use vstd::prelude::*;
use vstd::string::{StrSliceExecFns, StringExecFns};

use crate::value::{
    entries_model, int_items, num_items, nums_model, object_items, string_items, vals_model,
    ConfigNum, ConfigValue, NumModel, ValModel,
};
use crate::json::{doc_model, parse_text};

verus! {

/// The value the last entry with key `k` carries, or `None` where no entry has
/// that key.
pub open spec fn last_value_of(es: Seq<(Seq<char>, ValModel)>, k: Seq<char>) -> Option<ValModel>
    decreases es.len(),
{
    if es.len() == 0 {
        None
    } else if es.last().0 == k {
        Some(es.last().1)
    } else {
        last_value_of(es.drop_last(), k)
    }
}

/// The mapping an entry sequence denotes: each key maps to the value of its
/// last entry.
pub open spec fn assoc_map(es: Seq<(Seq<char>, ValModel)>) -> Map<Seq<char>, ValModel> {
    Map::new(
        |k: Seq<char>| last_value_of(es, k) is Some,
        |k: Seq<char>|
            match last_value_of(es, k) {
                Some(v) => v,
                None => ValModel::Null,
            },
    )
}

/// The table that results from writing every entry of `es`, in order, into
/// `t`: an entry overwrites both earlier entries of the same key and whatever
/// `t` held under that key.
pub open spec fn merged(
    t: Map<Seq<char>, ValModel>,
    es: Seq<(Seq<char>, ValModel)>,
) -> Map<Seq<char>, ValModel>
    decreases es.len(),
{
    if es.len() == 0 {
        t
    } else {
        merged(t, es.drop_last()).insert(es.last().0, es.last().1)
    }
}

/// Keys are pairwise distinct in the entry sequence.
pub open spec fn distinct_keys(es: Seq<(Seq<char>, ValModel)>) -> bool {
    forall|p: int, q: int| 0 <= p < q < es.len() ==> es[p].0 != es[q].0
}

/// Under distinct keys, the entry at position `i` is the one its key looks up.
proof fn lemma_last_value_at(es: Seq<(Seq<char>, ValModel)>, i: int)
    requires
        0 <= i < es.len(),
        distinct_keys(es),
    ensures
        last_value_of(es, es[i].0) == Some(es[i].1),
    decreases es.len(),
{
    if i < es.len() - 1 {
        assert(es.drop_last()[i] == es[i]);
        lemma_last_value_at(es.drop_last(), i);
    }
}

/// A key no entry carries looks up to nothing.
proof fn lemma_last_value_absent(es: Seq<(Seq<char>, ValModel)>, k: Seq<char>)
    requires
        forall|j: int| 0 <= j < es.len() ==> es[j].0 != k,
    ensures
        last_value_of(es, k) is None,
    decreases es.len(),
{
    if es.len() > 0 {
        lemma_last_value_absent(es.drop_last(), k);
    }
}

/// Replacing the value of the entry at position `i` changes exactly the
/// lookups of that entry's key.
proof fn lemma_last_value_update(es: Seq<(Seq<char>, ValModel)>, i: int, v: ValModel, k: Seq<char>)
    requires
        0 <= i < es.len(),
        distinct_keys(es),
    ensures
        last_value_of(es.update(i, (es[i].0, v)), k) == if k == es[i].0 {
            Some(v)
        } else {
            last_value_of(es, k)
        },
    decreases es.len(),
{
    let es2 = es.update(i, (es[i].0, v));
    if i == es.len() - 1 {
        assert(es2.drop_last() =~= es.drop_last());
    } else {
        assert(es2.last() == es.last());
        assert(es[i].0 != es.last().0);
        if k != es2.last().0 {
            assert(es2.drop_last() =~= es.drop_last().update(i, (es.drop_last()[i].0, v)));
            lemma_last_value_update(es.drop_last(), i, v, k);
        }
    }
}

/// A directory path normalized to end with the path separator.
pub open spec fn with_separator(p: Seq<char>) -> Seq<char> {
    if p.len() > 0 && p.last() == '/' {
        p
    } else {
        p + seq!['/']
    }
}

/// The file-resolution policy: where the configuration file is read from.
/// With no configured name there is nothing to read; a direct candidate at
/// the search path wins; otherwise, where the running executable's directory
/// lists an entry named like the file, that directory becomes the search path
/// and the file is read there; otherwise nothing is read. The result carries
/// the search path after resolution and the path to read.
pub open spec fn resolution(
    name: Seq<char>,
    search: Seq<char>,
    candidate_is_file: bool,
    exe_dir: Option<Seq<char>>,
    entries: Seq<Seq<char>>,
) -> Option<(Seq<char>, Seq<char>)> {
    if name.len() == 0 {
        None
    } else if candidate_is_file {
        Some((search, search + name))
    } else if exists|j: int| 0 <= j < entries.len() && entries[j] == name {
        match exe_dir {
            Some(d) => Some((with_separator(d), with_separator(d) + name)),
            None => None,
        }
    } else {
        None
    }
}

/// The model of a configuration store: the configured file name, the search
/// path, and the key/value table.
pub struct StoreModel {
    pub file_name: Seq<char>,
    pub search_path: Seq<char>,
    pub table: Map<Seq<char>, ValModel>,
}

/// A configuration store. The table starts empty and is filled by loading the
/// text of a JSON document whose top level is an object.
pub struct ConfigStore {
    file_name: String,
    search_path: String,
    entries: Vec<(String, ConfigValue)>,
}

impl View for ConfigStore {
    type V = StoreModel;

    closed spec fn view(&self) -> StoreModel {
        StoreModel {
            file_name: self.file_name@,
            search_path: self.search_path@,
            table: assoc_map(entries_model(self.entries@)),
        }
    }
}

impl ConfigStore {
    /// Well-formedness: the keys of the table's entries are pairwise distinct.
    pub closed spec fn wf(&self) -> bool {
        distinct_keys(entries_model(self.entries@))
    }

    /// Creates a store with no file name, no search path, and an empty table.
    pub fn new() -> (r: Self)
        ensures
            r.wf(),
            r@.file_name == Seq::<char>::empty(),
            r@.search_path == Seq::<char>::empty(),
            r@.table == Map::<Seq<char>, ValModel>::empty(),
    {
        let r = ConfigStore {
            file_name: String::new(),
            search_path: String::new(),
            entries: Vec::new(),
        };
        proof {
            assert forall|k: Seq<char>| !r@.table.contains_key(k) by {
                lemma_last_value_absent(entries_model(r.entries@), k);
            }
            assert(r@.table =~= Map::<Seq<char>, ValModel>::empty());
        }
        r
    }

    /// Records the name of the configuration file; an empty name keeps loads
    /// as no-ops.
    pub fn set_config_name(&mut self, name: &str)
        requires
            old(self).wf(),
        ensures
            final(self).wf(),
            final(self)@.file_name == name@,
            final(self)@.search_path == old(self)@.search_path,
            final(self)@.table == old(self)@.table,
    {
        self.file_name = String::from_str(name);
    }

    /// Records the directory the configuration file is searched in, appending
    /// the path separator where it is missing.
    pub fn add_config_path(&mut self, path: &str)
        requires
            old(self).wf(),
        ensures
            final(self).wf(),
            final(self)@.file_name == old(self)@.file_name,
            final(self)@.table == old(self)@.table,
            final(self)@.search_path == with_separator(path@),
    {
        let n = path.unicode_len();
        if n > 0 && path.get_char(n - 1) == '/' {
            self.search_path = String::from_str(path);
        } else {
            let mut s = String::from_str(path);
            s.append("/");
            proof {
                reveal_strlit("/");
                assert("/"@ =~= seq!['/']);
            }
            self.search_path = s;
        }
    }

    /// True exactly where a file name has been configured.
    pub fn is_configured(&self) -> (r: bool)
        ensures
            r == (self@.file_name.len() > 0),
    {
        !self.file_name.as_str().is_empty()
    }

    /// The configured file name.
    pub fn config_name(&self) -> (r: String)
        ensures
            r@ == self@.file_name,
    {
        self.file_name.clone()
    }

    /// The configured search path.
    pub fn config_path(&self) -> (r: String)
        ensures
            r@ == self@.search_path,
    {
        self.search_path.clone()
    }

    /// The path where the configuration file is looked for first: the search
    /// path followed by the file name.
    pub fn candidate_path(&self) -> (r: String)
        ensures
            r@ == self@.search_path + self@.file_name,
    {
        let mut s = self.search_path.clone();
        s.append(self.file_name.as_str());
        s
    }

    /// Resolves where the configuration file is read from, following
    /// [`resolution`]: the caller reports whether a regular file exists at the
    /// candidate path, and hands in the running executable's directory and its
    /// entry names for the fallback scan. Where the fallback wins, the search
    /// path is re-pointed at that directory.
    pub fn resolve_load(
        &mut self,
        candidate_is_file: bool,
        exe_dir: Option<&str>,
        exe_entries: &Vec<String>,
    ) -> (r: Option<String>)
        requires
            old(self).wf(),
        ensures
            final(self).wf(),
            final(self)@.file_name == old(self)@.file_name,
            final(self)@.table == old(self)@.table,
            match resolution(
                old(self)@.file_name,
                old(self)@.search_path,
                candidate_is_file,
                match exe_dir {
                    Some(d) => Some(d@),
                    None => None,
                },
                exe_entries.deep_view(),
            ) {
                Some((sp, path)) => final(self)@.search_path == sp && (r matches Some(p) && p@
                    == path),
                None => final(self)@.search_path == old(self)@.search_path && r is None,
            },
    {
        if !self.is_configured() {
            return None;
        }
        if candidate_is_file {
            return Some(self.candidate_path());
        }
        let name = self.config_name();
        match find_name(exe_entries, name.as_str()) {
            Some(i) => {
                proof {
                    assert(exe_entries.deep_view()[i as int] == exe_entries@[i as int]@);
                }
                match exe_dir {
                    Some(dir) => {
                        self.add_config_path(dir);
                        Some(self.candidate_path())
                    },
                    None => None,
                }
            },
            None => {
                proof {
                    assert forall|j: int|
                        0 <= j < exe_entries.deep_view().len() implies exe_entries.deep_view()[j]
                        != old(self)@.file_name by {
                        assert(exe_entries.deep_view()[j] == exe_entries@[j]@);
                    }
                }
                None
            },
        }
    }

    /// Looks the key up in the table.
    #[verifier::loop_isolation(false)]
    fn lookup<'a>(&'a self, key: &String) -> (r: Option<&'a ConfigValue>)
        requires
            self.wf(),
        ensures
            match r {
                Some(v) => self@.table.contains_key(key@) && v.model() == self@.table[key@],
                None => !self@.table.contains_key(key@),
            },
    {
        let mut i: usize = 0;
        while i < self.entries.len()
            invariant
                i <= self.entries@.len(),
                forall|j: int| 0 <= j < i ==> self.entries@[j].0@ != key@,
            decreases self.entries@.len() - i,
        {
            if self.entries[i].0 == *key {
                proof {
                    lemma_last_value_at(entries_model(self.entries@), i as int);
                }
                return Some(&self.entries[i].1);
            }
            i = i + 1;
        }
        proof {
            lemma_last_value_absent(entries_model(self.entries@), key@);
        }
        None
    }

    /// Writes the value under the key, overwriting an existing entry of the
    /// same key.
    #[verifier::loop_isolation(false)]
    fn insert_entry(&mut self, key: String, val: ConfigValue)
        requires
            old(self).wf(),
        ensures
            final(self).wf(),
            final(self)@.file_name == old(self)@.file_name,
            final(self)@.search_path == old(self)@.search_path,
            final(self)@.table == old(self)@.table.insert(key@, val.model()),
    {
        let ghost em = entries_model(old(self).entries@);
        let ghost target = assoc_map(em).insert(key@, val.model());
        let mut i: usize = 0;
        while i < self.entries.len()
            invariant
                i <= self.entries@.len(),
                *self == *old(self),
                forall|j: int| 0 <= j < i ==> self.entries@[j].0@ != key@,
            decreases self.entries@.len() - i,
        {
            if self.entries[i].0 == key {
                proof {
                    assert(self.entries@ == old(self).entries@);
                    assert(i < em.len());
                    assert(em[i as int].0 == key@);
                }
                let ghost k0 = em[i as int].0;
                let ghost vm = val.model();
                self.entries[i] = (key, val);
                proof {
                    let em2 = entries_model(self.entries@);
                    assert(self.entries@[i as int].1.model() == vm);
                    assert(em2 =~= em.update(i as int, (k0, vm)));
                    assert forall|k: Seq<char>|
                        last_value_of(em2, k) == if k == k0 {
                            Some(vm)
                        } else {
                            last_value_of(em, k)
                        } by {
                        lemma_last_value_update(em, i as int, vm, k);
                    }
                    assert(assoc_map(em2) =~= target);
                }
                return ;
            }
            i = i + 1;
        }
        let ghost kname = key@;
        let ghost vm = val.model();
        self.entries.push((key, val));
        proof {
            let em2 = entries_model(self.entries@);
            assert(em2.drop_last() =~= em);
            assert(em2.last() == (kname, vm));
            assert forall|p: int, q: int| 0 <= p < q < em2.len() implies em2[p].0 != em2[q].0 by {
                assert(em2[p] == em[p]);
                if q < em2.len() - 1 {
                    assert(em2[q] == em[q]);
                }
            }
            assert forall|k: Seq<char>|
                last_value_of(em2, k) == if k == kname {
                    Some(vm)
                } else {
                    last_value_of(em, k)
                } by {}
            assert(assoc_map(em2) =~= target);
        }
    }

    /// Loads configuration from the text of a JSON document. Where the text is
    /// a JSON object, its top-level entries are written into the table, later
    /// entries overwriting earlier ones; any other text (including a document
    /// whose top level is not an object) leaves the store unchanged, with no
    /// error reported.
    #[verifier::loop_isolation(false)]
    pub fn load_str(&mut self, text: &str)
        requires
            old(self).wf(),
        ensures
            final(self).wf(),
            final(self)@.file_name == old(self)@.file_name,
            final(self)@.search_path == old(self)@.search_path,
            match doc_model(text@) {
                Some(ValModel::Obj(es)) => final(self)@.table == merged(old(self)@.table, es),
                _ => final(self)@.table == old(self)@.table,
            },
    {
        match parse_text(text) {
            Some(cv) => match cv {
                ConfigValue::Obj(entries) => {
                    proof {
                        crate::value::lemma_obj_model(entries);
                    }
                    let ghost es = entries_model(entries@);
                    let ghost t0 = old(self)@.table;
                    let ghost n = es.len() as int;
                    let mut rest = entries;
                    while rest.len() > 0
                        invariant
                            self.wf(),
                            self@.file_name == old(self)@.file_name,
                            self@.search_path == old(self)@.search_path,
                            rest@.len() <= n,
                            n == es.len(),
                            entries_model(rest@) == es.skip(n - rest@.len()),
                            self@.table == merged(t0, es.take(n - rest@.len())),
                            t0 == old(self)@.table,
                        decreases rest@.len(),
                    {
                        let ghost k = n - rest@.len() as int;
                        let ghost prev = rest@;
                        let ghost rm = entries_model(rest@);
                        let (key, val) = rest.remove(0);
                        proof {
                            assert(rest@ =~= prev.subrange(1, prev.len() as int));
                            assert((key@, val.model()) == rm[0]);
                            assert(rm[0] == es[k]);
                            assert forall|j: int|
                                0 <= j < rest@.len() implies #[trigger] entries_model(rest@)[j]
                                == es.skip(k + 1)[j] by {
                                assert(rest@[j] == prev[j + 1]);
                                assert(es.skip(k + 1)[j] == es[k + 1 + j]);
                                assert(rm[j + 1] == es[k + 1 + j]);
                                assert(rm[j + 1] == (prev[j + 1].0@, prev[j + 1].1.model()));
                            }
                            assert(entries_model(rest@) =~= es.skip(k + 1));
                        }
                        self.insert_entry(key, val);
                        proof {
                            assert(es.take(k + 1).drop_last() =~= es.take(k));
                            assert(es.take(k + 1).last() == es[k]);
                        }
                    }
                    proof {
                        assert(es.take(n) =~= es);
                    }
                },
                other => {
                    proof {
                        assert(!(other.model() is Obj));
                    }
                },
            },
            None => {},
        }
    }
}

impl ConfigStore {
    /// The value stored under the key, or `None` where the key is absent.
    pub fn get(&self, key: &str) -> (r: Option<ConfigValue>)
        requires
            self.wf(),
        ensures
            match r {
                Some(v) => self@.table.contains_key(key@) && v.model() == self@.table[key@],
                None => !self@.table.contains_key(key@),
            },
    {
        let k = String::from_str(key);
        match self.lookup(&k) {
            Some(v) => Some(v.clone()),
            None => None,
        }
    }

    /// The string stored under the key, or `None` where the key is absent or
    /// its value is not a string.
    pub fn get_string(&self, key: &str) -> (r: Option<String>)
        requires
            self.wf(),
        ensures
            match r {
                Some(s) => self@.table.contains_key(key@) && self@.table[key@] == ValModel::Str(
                    s@,
                ),
                None => !(self@.table.contains_key(key@) && self@.table[key@] is Str),
            },
    {
        let k = String::from_str(key);
        match self.lookup(&k) {
            Some(v) => match v {
                ConfigValue::Str(s) => Some(s.clone()),
                _ => None,
            },
            None => None,
        }
    }

    /// The boolean stored under the key, or `None` where the key is absent or
    /// its value is not a boolean.
    pub fn get_bool(&self, key: &str) -> (r: Option<bool>)
        requires
            self.wf(),
        ensures
            match r {
                Some(b) => self@.table.contains_key(key@) && self@.table[key@] == ValModel::Bool(
                    b,
                ),
                None => !(self@.table.contains_key(key@) && self@.table[key@] is Bool),
            },
    {
        let k = String::from_str(key);
        match self.lookup(&k) {
            Some(v) => match v {
                ConfigValue::Bool(b) => Some(*b),
                _ => None,
            },
            None => None,
        }
    }

    /// The integer stored under the key, or `None` where the key is absent or
    /// its value is not an integer fitting in an `i64`.
    pub fn get_int64(&self, key: &str) -> (r: Option<i64>)
        requires
            self.wf(),
        ensures
            match r {
                Some(i) => self@.table.contains_key(key@) && self@.table[key@] == ValModel::Num(
                    NumModel::Int(i),
                ),
                None => !(self@.table.contains_key(key@) && self@.table[key@] matches
                ValModel::Num(NumModel::Int(_))),
            },
    {
        let k = String::from_str(key);
        match self.lookup(&k) {
            Some(v) => match v {
                ConfigValue::Num(ConfigNum::Int(i)) => Some(*i),
                _ => None,
            },
            None => None,
        }
    }

    /// The integer stored under the key, narrowed to an `i32` by truncation,
    /// a lossy conversion that keeps the low bits; `None` where the key is
    /// absent or its value is not an integer fitting in an `i64`.
    pub fn get_i32(&self, key: &str) -> (r: Option<i32>)
        requires
            self.wf(),
        ensures
            match r {
                Some(x) => self@.table.contains_key(key@) && (self@.table[key@] matches
                ValModel::Num(NumModel::Int(i)) && x == i as i32 && (i32::MIN <= i <= i32::MAX
                    ==> x == i)),
                None => !(self@.table.contains_key(key@) && self@.table[key@] matches
                ValModel::Num(NumModel::Int(_))),
            },
    {
        match self.get_int64(key) {
            Some(i) => Some(#[verifier::truncate] (i as i32)),
            None => None,
        }
    }

    /// The integer stored under the key, narrowed to an `i16` by truncation,
    /// a lossy conversion that keeps the low bits; `None` where the key is
    /// absent or its value is not an integer fitting in an `i64`.
    pub fn get_i16(&self, key: &str) -> (r: Option<i16>)
        requires
            self.wf(),
        ensures
            match r {
                Some(x) => self@.table.contains_key(key@) && (self@.table[key@] matches
                ValModel::Num(NumModel::Int(i)) && x == i as i16 && (i16::MIN <= i <= i16::MAX
                    ==> x == i)),
                None => !(self@.table.contains_key(key@) && self@.table[key@] matches
                ValModel::Num(NumModel::Int(_))),
            },
    {
        match self.get_int64(key) {
            Some(i) => Some(#[verifier::truncate] (i as i16)),
            None => None,
        }
    }

    /// The integer stored under the key, narrowed to an `i8` by truncation, a
    /// lossy conversion that keeps the low bits; `None` where the key is
    /// absent or its value is not an integer fitting in an `i64`.
    pub fn get_int8(&self, key: &str) -> (r: Option<i8>)
        requires
            self.wf(),
        ensures
            match r {
                Some(x) => self@.table.contains_key(key@) && (self@.table[key@] matches
                ValModel::Num(NumModel::Int(i)) && x == i as i8 && (i8::MIN <= i <= i8::MAX
                    ==> x == i)),
                None => !(self@.table.contains_key(key@) && self@.table[key@] matches
                ValModel::Num(NumModel::Int(_))),
            },
    {
        match self.get_int64(key) {
            Some(i) => Some(#[verifier::truncate] (i as i8)),
            None => None,
        }
    }

    /// The number stored under the key, or `None` where the key is absent or
    /// its value is not a number.
    pub fn get_number(&self, key: &str) -> (r: Option<ConfigNum>)
        requires
            self.wf(),
        ensures
            match r {
                Some(n) => self@.table.contains_key(key@) && self@.table[key@] == ValModel::Num(
                    n.model(),
                ),
                None => !(self@.table.contains_key(key@) && self@.table[key@] is Num),
            },
    {
        let k = String::from_str(key);
        match self.lookup(&k) {
            Some(v) => match v {
                ConfigValue::Num(n) => Some(n.clone()),
                _ => None,
            },
            None => None,
        }
    }

    /// The object stored under the key, as its sequence of key/value entries,
    /// or `None` where the key is absent or its value is not an object.
    pub fn get_map(&self, key: &str) -> (r: Option<Vec<(String, ConfigValue)>>)
        requires
            self.wf(),
        ensures
            match r {
                Some(es) => self@.table.contains_key(key@) && self@.table[key@] == ValModel::Obj(
                    entries_model(es@),
                ),
                None => !(self@.table.contains_key(key@) && self@.table[key@] is Obj),
            },
    {
        let k = String::from_str(key);
        match self.lookup(&k) {
            Some(v) => match v {
                ConfigValue::Obj(es) => {
                    proof {
                        crate::value::lemma_obj_model(*es);
                    }
                    Some(crate::value::clone_entries(es))
                },
                _ => None,
            },
            None => None,
        }
    }

    /// The array stored under the key, as a borrowed vector of its elements.
    fn lookup_array<'a>(&'a self, key: &String) -> (r: Option<&'a Vec<ConfigValue>>)
        requires
            self.wf(),
        ensures
            match r {
                Some(vs) => self@.table.contains_key(key@) && self@.table[key@] == ValModel::Arr(
                    vals_model(vs@),
                ),
                None => !(self@.table.contains_key(key@) && self@.table[key@] is Arr),
            },
    {
        match self.lookup(key) {
            Some(v) => match v {
                ConfigValue::Arr(vs) => {
                    proof {
                        crate::value::lemma_arr_model(*vs);
                    }
                    Some(vs)
                },
                _ => None,
            },
            None => None,
        }
    }

    /// The strings of the array stored under the key, in order, every element
    /// of another shape silently dropped; `None` where the key is absent or
    /// its value is not an array.
    #[verifier::loop_isolation(false)]
    pub fn get_string_array(&self, key: &str) -> (r: Option<Vec<String>>)
        requires
            self.wf(),
        ensures
            match r {
                Some(v) => self@.table.contains_key(key@) && (self@.table[key@] matches
                ValModel::Arr(items) && v.deep_view() == string_items(items)),
                None => !(self@.table.contains_key(key@) && self@.table[key@] is Arr),
            },
    {
        let k = String::from_str(key);
        match self.lookup_array(&k) {
            Some(vs) => {
                let ghost items = vals_model(vs@);
                let mut out: Vec<String> = Vec::new();
                let mut i: usize = 0;
                while i < vs.len()
                    invariant
                        i <= vs@.len(),
                        out.deep_view() == string_items(items.take(i as int)),
                    decreases vs@.len() - i,
                {
                    proof {
                        assert(items.take(i + 1).drop_last() =~= items.take(i as int));
                        assert(items.take(i + 1).last() == vs@[i as int].model());
                    }
                    match &vs[i] {
                        ConfigValue::Str(s) => {
                            let ghost dv = out.deep_view();
                            out.push(s.clone());
                            proof {
                                assert(out.deep_view() =~= dv.push(s@));
                            }
                        },
                        _ => {},
                    }
                    i = i + 1;
                }
                proof {
                    assert(items.take(vs@.len() as int) =~= items);
                }
                Some(out)
            },
            None => None,
        }
    }

    /// The `i64` integers of the array stored under the key, in order, every
    /// element of another shape silently dropped; `None` where the key is
    /// absent or its value is not an array.
    #[verifier::loop_isolation(false)]
    pub fn get_int64_array(&self, key: &str) -> (r: Option<Vec<i64>>)
        requires
            self.wf(),
        ensures
            match r {
                Some(v) => self@.table.contains_key(key@) && (self@.table[key@] matches
                ValModel::Arr(items) && v@ == int_items(items)),
                None => !(self@.table.contains_key(key@) && self@.table[key@] is Arr),
            },
    {
        let k = String::from_str(key);
        match self.lookup_array(&k) {
            Some(vs) => {
                let ghost items = vals_model(vs@);
                let mut out: Vec<i64> = Vec::new();
                let mut i: usize = 0;
                while i < vs.len()
                    invariant
                        i <= vs@.len(),
                        out@ == int_items(items.take(i as int)),
                    decreases vs@.len() - i,
                {
                    proof {
                        assert(items.take(i + 1).drop_last() =~= items.take(i as int));
                        assert(items.take(i + 1).last() == vs@[i as int].model());
                    }
                    match &vs[i] {
                        ConfigValue::Num(n) => match n {
                            ConfigNum::Int(x) => out.push(*x),
                            _ => {},
                        },
                        _ => {},
                    }
                    i = i + 1;
                }
                proof {
                    assert(items.take(vs@.len() as int) =~= items);
                }
                Some(out)
            },
            None => None,
        }
    }

    /// The numbers of the array stored under the key, in order, every element
    /// of another shape silently dropped; `None` where the key is absent or
    /// its value is not an array.
    #[verifier::loop_isolation(false)]
    pub fn get_number_array(&self, key: &str) -> (r: Option<Vec<ConfigNum>>)
        requires
            self.wf(),
        ensures
            match r {
                Some(v) => self@.table.contains_key(key@) && (self@.table[key@] matches
                ValModel::Arr(items) && nums_model(v@) == num_items(items)),
                None => !(self@.table.contains_key(key@) && self@.table[key@] is Arr),
            },
    {
        let k = String::from_str(key);
        match self.lookup_array(&k) {
            Some(vs) => {
                let ghost items = vals_model(vs@);
                let mut out: Vec<ConfigNum> = Vec::new();
                let mut i: usize = 0;
                while i < vs.len()
                    invariant
                        i <= vs@.len(),
                        nums_model(out@) == num_items(items.take(i as int)),
                    decreases vs@.len() - i,
                {
                    proof {
                        assert(items.take(i + 1).drop_last() =~= items.take(i as int));
                        assert(items.take(i + 1).last() == vs@[i as int].model());
                    }
                    match &vs[i] {
                        ConfigValue::Num(n) => {
                            let ghost nm = nums_model(out@);
                            out.push(n.clone());
                            proof {
                                assert(nums_model(out@) =~= nm.push(n.model()));
                            }
                        },
                        _ => {},
                    }
                    i = i + 1;
                }
                proof {
                    assert(items.take(vs@.len() as int) =~= items);
                }
                Some(out)
            },
            None => None,
        }
    }

    /// The objects of the array stored under the key, in order, every element
    /// of another shape silently dropped; `None` where the key is absent or
    /// its value is not an array.
    #[verifier::loop_isolation(false)]
    pub fn get_array(&self, key: &str) -> (r: Option<Vec<ConfigValue>>)
        requires
            self.wf(),
        ensures
            match r {
                Some(v) => self@.table.contains_key(key@) && (self@.table[key@] matches
                ValModel::Arr(items) && vals_model(v@) == object_items(items)),
                None => !(self@.table.contains_key(key@) && self@.table[key@] is Arr),
            },
    {
        let k = String::from_str(key);
        match self.lookup_array(&k) {
            Some(vs) => {
                let ghost items = vals_model(vs@);
                let mut out: Vec<ConfigValue> = Vec::new();
                let mut i: usize = 0;
                while i < vs.len()
                    invariant
                        i <= vs@.len(),
                        vals_model(out@) == object_items(items.take(i as int)),
                    decreases vs@.len() - i,
                {
                    proof {
                        assert(items.take(i + 1).drop_last() =~= items.take(i as int));
                        assert(items.take(i + 1).last() == vs@[i as int].model());
                    }
                    let elem = &vs[i];
                    match elem {
                        ConfigValue::Obj(_) => {
                            let ghost vm = vals_model(out@);
                            out.push(elem.clone());
                            proof {
                                assert(vals_model(out@) =~= vm.push(elem.model()));
                            }
                        },
                        _ => {},
                    }
                    i = i + 1;
                }
                proof {
                    assert(items.take(vs@.len() as int) =~= items);
                }
                Some(out)
            },
            None => None,
        }
    }
}

/// What the lossy narrowing conversions keep: exactly the low bits of the
/// argument. The narrowed result, reinterpreted as unsigned, is the remainder
/// of the argument's unsigned two's-complement image by the narrow type's
/// range.
pub proof fn lemma_narrowing_keeps_low_bits(i: i64)
    ensures
        ((i as i8) as u8) as u64 == (i as u64) % 256u64,
        ((i as i16) as u16) as u64 == (i as u64) % 0x10000u64,
        ((i as i32) as u32) as u64 == (i as u64) % 0x100000000u64,
{
    assert(((i as i8) as u8) as u64 == (i as u64) % 256u64) by (bit_vector);
    assert(((i as i16) as u16) as u64 == (i as u64) % 0x10000u64) by (bit_vector);
    assert(((i as i32) as u32) as u64 == (i as u64) % 0x100000000u64) by (bit_vector);
}

/// What a merged table holds: a key some entry writes carries the value of its
/// last entry, and every other key keeps whatever the prior table held.
pub proof fn lemma_merged_lookup(
    t: Map<Seq<char>, ValModel>,
    es: Seq<(Seq<char>, ValModel)>,
    k: Seq<char>,
)
    ensures
        merged(t, es).contains_key(k) <==> (t.contains_key(k) || last_value_of(es, k) is Some),
        match last_value_of(es, k) {
            Some(v) => merged(t, es)[k] == v,
            None => t.contains_key(k) ==> merged(t, es)[k] == t[k],
        },
    decreases es.len(),
{
    if es.len() > 0 {
        lemma_merged_lookup(t, es.drop_last(), k);
    }
}

/// The position of the first directory entry that equals the configured file
/// name, where the fallback scan looks for the file.
pub fn find_name(entries: &Vec<String>, name: &str) -> (r: Option<usize>)
    ensures
        match r {
            Some(i) => i < entries@.len() && entries@[i as int]@ == name@ && forall|j: int|
                0 <= j < i ==> entries@[j]@ != name@,
            None => forall|j: int| 0 <= j < entries@.len() ==> entries@[j]@ != name@,
        },
{
    let target = String::from_str(name);
    let mut i: usize = 0;
    while i < entries.len()
        invariant
            i <= entries@.len(),
            target@ == name@,
            forall|j: int| 0 <= j < i ==> entries@[j]@ != name@,
        decreases entries@.len() - i,
    {
        if entries[i] == target {
            return Some(i);
        }
        i = i + 1;
    }
    None
}

} // verus!

