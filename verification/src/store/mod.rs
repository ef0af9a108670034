//! An in-memory cache of resources, keyed by their cache keys, and the
//! decisions of loading a resource from memory, then disk, then the
//! network. Reading and writing the disk and the network is the
//! application's part.

pub mod resources;

pub use resources::AllChannelCategories;
pub use resources::AllChannels;
pub use resources::AllTeams;
pub use resources::ChannelPosts;
pub use resources::UserById;

use vstd::prelude::*;

use crate::client::channel::Channel;
use crate::client::channel::ChannelCategory;
use crate::client::post::Post;
use crate::client::team::Team;
use crate::client::user::User;

verus! {

/// A cached value of one of the resource types.
#[derive(Debug)]
pub enum CachedValue {
    Channels(Vec<Channel>),
    ChannelCategories(Vec<ChannelCategory>),
    Teams(Vec<Team>),
    Posts(Vec<Post>),
    User(User),
}

/// Which of the resource types a cached value is of.
pub enum ValueKind {
    Channels,
    ChannelCategories,
    Teams,
    Posts,
    User,
}

/// The kind of value a cached form holds.
pub open spec fn entry_kind(c: CachedValue) -> ValueKind {
    match c {
        CachedValue::Channels(_) => ValueKind::Channels,
        CachedValue::ChannelCategories(_) => ValueKind::ChannelCategories,
        CachedValue::Teams(_) => ValueKind::Teams,
        CachedValue::Posts(_) => ValueKind::Posts,
        CachedValue::User(_) => ValueKind::User,
    }
}

/// A type whose values the store can hold.
pub trait Cacheable: Sized + Clone {
    /// The kind of the cached forms of this type's values.
    spec fn kind() -> ValueKind;

    /// A cached form holds a value of this type exactly when it is of this
    /// type's kind, and the cached form of a value is of that kind.
    proof fn lemma_entry_kind(c: CachedValue, v: Self)
        ensures
            Self::of_entry(c) is Some <==> entry_kind(c) == Self::kind(),
            entry_kind(v.to_entry()) == Self::kind(),
    ;

    /// The cached form of a value.
    spec fn to_entry(self) -> CachedValue;

    /// The value of this type that a cached form holds, if it holds one.
    spec fn of_entry(c: CachedValue) -> Option<Self>;

    /// A value is found again in its cached form.
    proof fn lemma_entry_round_trip(v: Self)
        ensures
            Self::of_entry(v.to_entry()) == Some(v),
    ;

    /// The cached form of a value.
    fn into_entry(self) -> (c: CachedValue)
        ensures
            c == self.to_entry(),
    ;

    /// A copy of the value of this type that a cached form holds, if any.
    fn from_entry(c: &CachedValue) -> (r: Option<Self>)
        ensures
            match Self::of_entry(*c) {
                Some(v) => r matches Some(x) && cloned(v, x),
                None => r is None,
            },
    ;
}

impl Cacheable for Vec<Channel> {
    open spec fn kind() -> ValueKind {
        ValueKind::Channels
    }

    proof fn lemma_entry_kind(c: CachedValue, v: Self) {
    }

    open spec fn to_entry(self) -> CachedValue {
        CachedValue::Channels(self)
    }

    open spec fn of_entry(c: CachedValue) -> Option<Self> {
        match c {
            CachedValue::Channels(v) => Some(v),
            _ => None,
        }
    }

    proof fn lemma_entry_round_trip(v: Self) {
    }

    fn into_entry(self) -> (c: CachedValue) {
        CachedValue::Channels(self)
    }

    fn from_entry(c: &CachedValue) -> (r: Option<Self>) {
        match c {
            CachedValue::Channels(v) => Some(v.clone()),
            _ => None,
        }
    }
}

impl Cacheable for Vec<ChannelCategory> {
    open spec fn kind() -> ValueKind {
        ValueKind::ChannelCategories
    }

    proof fn lemma_entry_kind(c: CachedValue, v: Self) {
    }

    open spec fn to_entry(self) -> CachedValue {
        CachedValue::ChannelCategories(self)
    }

    open spec fn of_entry(c: CachedValue) -> Option<Self> {
        match c {
            CachedValue::ChannelCategories(v) => Some(v),
            _ => None,
        }
    }

    proof fn lemma_entry_round_trip(v: Self) {
    }

    fn into_entry(self) -> (c: CachedValue) {
        CachedValue::ChannelCategories(self)
    }

    fn from_entry(c: &CachedValue) -> (r: Option<Self>) {
        match c {
            CachedValue::ChannelCategories(v) => Some(v.clone()),
            _ => None,
        }
    }
}

impl Cacheable for Vec<Team> {
    open spec fn kind() -> ValueKind {
        ValueKind::Teams
    }

    proof fn lemma_entry_kind(c: CachedValue, v: Self) {
    }

    open spec fn to_entry(self) -> CachedValue {
        CachedValue::Teams(self)
    }

    open spec fn of_entry(c: CachedValue) -> Option<Self> {
        match c {
            CachedValue::Teams(v) => Some(v),
            _ => None,
        }
    }

    proof fn lemma_entry_round_trip(v: Self) {
    }

    fn into_entry(self) -> (c: CachedValue) {
        CachedValue::Teams(self)
    }

    fn from_entry(c: &CachedValue) -> (r: Option<Self>) {
        match c {
            CachedValue::Teams(v) => Some(v.clone()),
            _ => None,
        }
    }
}

impl Cacheable for Vec<Post> {
    open spec fn kind() -> ValueKind {
        ValueKind::Posts
    }

    proof fn lemma_entry_kind(c: CachedValue, v: Self) {
    }

    open spec fn to_entry(self) -> CachedValue {
        CachedValue::Posts(self)
    }

    open spec fn of_entry(c: CachedValue) -> Option<Self> {
        match c {
            CachedValue::Posts(v) => Some(v),
            _ => None,
        }
    }

    proof fn lemma_entry_round_trip(v: Self) {
    }

    fn into_entry(self) -> (c: CachedValue) {
        CachedValue::Posts(self)
    }

    fn from_entry(c: &CachedValue) -> (r: Option<Self>) {
        match c {
            CachedValue::Posts(v) => Some(v.clone()),
            _ => None,
        }
    }
}

impl Cacheable for User {
    open spec fn kind() -> ValueKind {
        ValueKind::User
    }

    proof fn lemma_entry_kind(c: CachedValue, v: Self) {
    }

    open spec fn to_entry(self) -> CachedValue {
        CachedValue::User(self)
    }

    open spec fn of_entry(c: CachedValue) -> Option<Self> {
        match c {
            CachedValue::User(v) => Some(v),
            _ => None,
        }
    }

    proof fn lemma_entry_round_trip(v: Self) {
    }

    fn into_entry(self) -> (c: CachedValue) {
        CachedValue::User(self)
    }

    fn from_entry(c: &CachedValue) -> (r: Option<Self>) {
        match c {
            CachedValue::User(v) => Some(v.clone()),
            _ => None,
        }
    }
}

/// The value of type `T` that the memory `m` holds under `key`, if it holds
/// one of that type there.
pub open spec fn typed_entry<T: Cacheable>(m: Map<Seq<char>, CachedValue>, key: Seq<char>) -> Option<T> {
    if m.contains_key(key) {
        T::of_entry(m[key])
    } else {
        None
    }
}

/// A resource of the server that the store caches: the type of its value
/// and the key it is cached under in memory and, as a relative path, on
/// disk. Fetching it is the application's part.
pub trait Resource {
    type Value: Cacheable;

    /// The cache key of the resource.
    spec fn key(&self) -> Seq<char>;

    /// The cache key of the resource.
    fn cache_key(&self) -> (k: String)
        ensures
            k@ == self.key(),
    ;
}

/// Caches resource values in memory, keyed by their cache keys, next to the
/// directory their copies on disk are kept in.
pub struct Store {
    memory: Vec<(String, CachedValue)>,
    cache_dir: std::path::PathBuf,
}

/// The position of `key` in the memory's entries.
spec fn key_position(mem: Seq<(String, CachedValue)>, key: Seq<char>) -> int {
    choose|i: int| 0 <= i < mem.len() && mem[i].0@ == key
}

/// Whether `key` has an entry.
spec fn has_key(mem: Seq<(String, CachedValue)>, key: Seq<char>) -> bool {
    exists|i: int| 0 <= i < mem.len() && mem[i].0@ == key
}

spec fn memory_map(mem: Seq<(String, CachedValue)>) -> Map<Seq<char>, CachedValue> {
    Map::new(|k: Seq<char>| has_key(mem, k), |k: Seq<char>| mem[key_position(mem, k)].1)
}

spec fn keys_distinct(mem: Seq<(String, CachedValue)>) -> bool {
    forall|i: int, j: int| 0 <= i < mem.len() && 0 <= j < mem.len() && i != j ==> mem[i].0@ != mem[j].0@
}

impl View for Store {
    type V = Map<Seq<char>, CachedValue>;

    closed spec fn view(&self) -> Map<Seq<char>, CachedValue> {
        memory_map(self.memory@)
    }
}

proof fn lemma_position_of_key(mem: Seq<(String, CachedValue)>, i: int)
    requires
        keys_distinct(mem),
        0 <= i < mem.len(),
    ensures
        has_key(mem, mem[i].0@),
        key_position(mem, mem[i].0@) == i,
{
    let k = mem[i].0@;
    assert(has_key(mem, k));
    let j = key_position(mem, k);
    assert(mem[j].0@ == k);
}

impl Store {
    #[verifier::type_invariant]
    spec fn inv(self) -> bool {
        keys_distinct(self.memory@)
    }

    /// The directory copies on disk are kept in.
    pub closed spec fn dir(&self) -> std::path::PathBuf {
        self.cache_dir
    }

    /// An empty store whose disk copies are kept in `cache_dir`.
    pub fn new(cache_dir: std::path::PathBuf) -> (r: Self)
        ensures
            r@ == Map::<Seq<char>, CachedValue>::empty(),
            r.dir() == cache_dir,
    {
        let r = Store { memory: Vec::new(), cache_dir };
        assert(r@ =~= Map::<Seq<char>, CachedValue>::empty());
        r
    }

    /// The directory copies on disk are kept in.
    pub fn cache_dir(&self) -> (r: std::path::PathBuf)
        ensures
            r == self.dir(),
    {
        self.cache_dir.clone()
    }

    fn position(&self, key: &str) -> (r: Option<usize>)
        ensures
            r matches Some(i) ==> i < self.memory@.len() && self.memory@[i as int].0@ == key@,
            r is None ==> !has_key(self.memory@, key@),
    {
        let wanted = key.to_owned();
        let mut i: usize = 0;
        while i < self.memory.len()
            invariant
                i <= self.memory@.len(),
                wanted@ == key@,
                forall|q: int| 0 <= q < i ==> self.memory@[q].0@ != key@,
            decreases self.memory@.len() - i,
        {
            if self.memory[i].0 == wanted {
                return Some(i);
            }
            i = i + 1;
        }
        None
    }

    /// A copy of the value of type `T` held under `key`; none where there is
    /// no entry under `key` or it holds a value of another type.
    pub fn memory_get<T: Cacheable>(&self, key: &str) -> (r: Option<T>)
        ensures
            match typed_entry::<T>(self@, key@) {
                Some(v) => r matches Some(x) && cloned(v, x),
                None => r is None,
            },
    {
        proof {
            use_type_invariant(self);
        }
        match self.position(key) {
            Some(i) => {
                proof {
                    lemma_position_of_key(self.memory@, i as int);
                }
                T::from_entry(&self.memory[i].1)
            },
            None => None,
        }
    }

    /// Holds `value` under `key`, replacing what was held there.
    pub fn memory_insert<T: Cacheable>(&mut self, key: String, value: T)
        ensures
            final(self)@ == old(self)@.insert(key@, value.to_entry()),
            final(self).dir() == old(self).dir(),
    {
        proof {
            use_type_invariant(&*self);
        }
        let ghost old_mem = self.memory@;
        let entry = value.into_entry();
        let ghost e = (key, entry);
        let found = self.position(key.as_str());
        let mut mem: Vec<(String, CachedValue)> = Vec::new();
        std::mem::swap(&mut mem, &mut self.memory);
        match found {
            Some(i) => {
                proof {
                    lemma_map_after_set(old_mem, i as int, e);
                }
                mem.set(i, (key, entry));
            },
            None => {
                proof {
                    lemma_map_after_push(old_mem, e);
                }
                mem.push((key, entry));
            },
        }
        self.memory = mem;
    }
}

/// Where loading a resource stands after a step: its value (or the error
/// of fetching it) is known, or the next source is to be tried.
#[derive(Debug)]
pub enum LoadStep<T, E> {
    Done(Result<T, E>),
    ReadDisk,
    Fetch,
}

impl Store {
    /// The first step of loading the resource cached under `key`: a copy of
    /// the value held in memory, or, where memory holds none of type `T`, a
    /// read of the disk.
    pub fn begin_load<T: Cacheable, E>(&self, key: &str) -> (r: LoadStep<T, E>)
        ensures
            match typed_entry::<T>(self@, key@) {
                Some(v) => r matches LoadStep::Done(Ok(x)) && cloned(v, x),
                None => r is ReadDisk,
            },
    {
        match self.memory_get::<T>(key) {
            Some(hit) => LoadStep::Done(Ok(hit)),
            None => LoadStep::ReadDisk,
        }
    }

    /// The step after reading the disk: a value found there is held in memory
    /// under `key` and the load is done with a copy of it; where none was
    /// found the resource is to be fetched.
    pub fn after_disk_read<T: Cacheable, E>(&mut self, key: String, found: Option<T>) -> (r: LoadStep<T, E>)
        ensures
            match found {
                Some(v) => final(self)@ == old(self)@.insert(key@, v.to_entry()) && (r matches LoadStep::Done(Ok(x))
                    && cloned(v, x)),
                None => final(self)@ == old(self)@ && r is Fetch,
            },
            final(self).dir() == old(self).dir(),
    {
        match found {
            Some(v) => {
                let copy = v.clone();
                self.memory_insert(key, v);
                LoadStep::Done(Ok(copy))
            },
            None => LoadStep::Fetch,
        }
    }

    /// The last step, after fetching: a fetched value is held in memory under
    /// `key` and a copy of it returned; an error is returned as it is, with
    /// memory unchanged. The application writes a fetched value to disk
    /// before this step.
    pub fn after_fetch<T: Cacheable, E>(&mut self, key: String, fetched: Result<T, E>) -> (r: Result<T, E>)
        ensures
            match fetched {
                Ok(v) => final(self)@ == old(self)@.insert(key@, v.to_entry()) && (r matches Ok(x) && cloned(v, x)),
                Err(e) => final(self)@ == old(self)@ && r == Err::<T, E>(e),
            },
            final(self).dir() == old(self).dir(),
    {
        match fetched {
            Ok(v) => {
                let copy = v.clone();
                self.memory_insert(key, v);
                Ok(copy)
            },
            Err(e) => Err(e),
        }
    }
}

/// A value held under a key is read back from that key, as a value of its
/// own type; and holding it changes what no other key reads.
pub proof fn law_read_after_write<T: Cacheable, U: Cacheable>(m: Map<Seq<char>, CachedValue>, key: Seq<char>, value: T, other: Seq<char>)
    ensures
        typed_entry::<T>(m.insert(key, value.to_entry()), key) == Some(value),
        other != key ==> typed_entry::<U>(m.insert(key, value.to_entry()), other) == typed_entry::<U>(m, other),
{
    T::lemma_entry_round_trip(value);
}

/// A value held under a key is read as a value of another type exactly
/// when both types have cached forms of the same kind, so a read of the
/// wrong type finds nothing; and a key that holds nothing is read as
/// nothing, whatever the type.
pub proof fn law_read_other_type<T: Cacheable, U: Cacheable>(m: Map<Seq<char>, CachedValue>, key: Seq<char>, value: T, other: Seq<char>)
    ensures
        typed_entry::<U>(m.insert(key, value.to_entry()), key) is Some <==> U::kind() == T::kind(),
        !m.contains_key(other) ==> typed_entry::<U>(m, other) is None,
{
    T::lemma_entry_kind(value.to_entry(), value);
    U::lemma_entry_kind(value.to_entry(), U::of_entry(value.to_entry()).unwrap());
}

proof fn lemma_map_after_set(mem: Seq<(String, CachedValue)>, i: int, e: (String, CachedValue))
    requires
        keys_distinct(mem),
        0 <= i < mem.len(),
        mem[i].0@ == e.0@,
    ensures
        keys_distinct(mem.update(i, e)),
        memory_map(mem.update(i, e)) == memory_map(mem).insert(e.0@, e.1),
{
    let new = mem.update(i, e);
    assert(keys_distinct(new)) by {
        assert forall|a: int, b: int| 0 <= a < new.len() && 0 <= b < new.len() && a != b implies new[a].0@ != new[b].0@ by {
            assert(new[a].0@ == mem[a].0@);
            assert(new[b].0@ == mem[b].0@);
        }
    }
    assert forall|q: Seq<char>| #[trigger] has_key(new, q) == has_key(mem, q) by {
        if has_key(mem, q) {
            let p = choose|p: int| 0 <= p < mem.len() && mem[p].0@ == q;
            assert(new[p].0@ == q);
        }
        if has_key(new, q) {
            let p = choose|p: int| 0 <= p < new.len() && new[p].0@ == q;
            assert(mem[p].0@ == q);
        }
    }
    assert forall|q: Seq<char>| has_key(new, q) implies #[trigger] memory_map(new)[q] == memory_map(mem).insert(e.0@, e.1)[q] by {
        let p = choose|p: int| 0 <= p < new.len() && new[p].0@ == q;
        lemma_position_of_key(new, p);
        lemma_position_of_key(mem, p);
        assert(new[p].0@ == mem[p].0@);
    }
    assert(memory_map(new) =~= memory_map(mem).insert(e.0@, e.1));
}

proof fn lemma_map_after_push(mem: Seq<(String, CachedValue)>, e: (String, CachedValue))
    requires
        keys_distinct(mem),
        !has_key(mem, e.0@),
    ensures
        keys_distinct(mem.push(e)),
        memory_map(mem.push(e)) == memory_map(mem).insert(e.0@, e.1),
{
    let new = mem.push(e);
    let n = mem.len() as int;
    assert(keys_distinct(new)) by {
        assert forall|a: int, b: int| 0 <= a < new.len() && 0 <= b < new.len() && a != b implies new[a].0@ != new[b].0@ by {
            if a < n && b < n {
                assert(new[a] == mem[a]);
                assert(new[b] == mem[b]);
            } else if a < n {
                assert(new[a] == mem[a]);
            } else {
                assert(new[b] == mem[b]);
            }
        }
    }
    assert forall|q: Seq<char>| #[trigger] has_key(new, q) == (has_key(mem, q) || q == e.0@) by {
        if has_key(mem, q) {
            let p = choose|p: int| 0 <= p < mem.len() && mem[p].0@ == q;
            assert(new[p].0@ == q);
        }
        if q == e.0@ {
            assert(new[n].0@ == q);
        }
        if has_key(new, q) && q != e.0@ {
            let p = choose|p: int| 0 <= p < new.len() && new[p].0@ == q;
            assert(p < n);
            assert(mem[p].0@ == q);
        }
    }
    assert forall|q: Seq<char>| has_key(new, q) implies #[trigger] memory_map(new)[q] == memory_map(mem).insert(e.0@, e.1)[q] by {
        let p = choose|p: int| 0 <= p < new.len() && new[p].0@ == q;
        lemma_position_of_key(new, p);
        if p < n {
            assert(new[p] == mem[p]);
            lemma_position_of_key(mem, p);
        }
    }
    assert(memory_map(new) =~= memory_map(mem).insert(e.0@, e.1));
}

} // verus!
