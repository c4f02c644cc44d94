//! What a session has open, by handle.

use vstd::prelude::*;

use crate::protocol::StatusCode;

verus! {

/// What a handle stands for. The type `F` is that of an open file.
pub enum OurHandle<F> {
    File(F),
    /// A directory, and whether it has been read: once it has, reading it again tells the
    /// client that it is at the end.
    Dir(bool),
}

/// What a handle stands for, and the path under which it was opened.
pub struct InternalHandle<F> {
    pub path: String,
    pub handle: OurHandle<F>,
}

impl<F> InternalHandle<F> {
    /// A directory that has not been read yet.
    pub fn new_dir(path: &String) -> (r: Self)
        ensures
            r.path == *path,
            r.handle == OurHandle::<F>::Dir(false),
    {
        InternalHandle { path: path.clone(), handle: OurHandle::Dir(false) }
    }

    /// The open file.
    pub fn file(&mut self) -> (r: Result<&mut F, StatusCode>)
        ensures
            match r {
                Ok(file) => {
                    &&& old(self).handle == OurHandle::File(*file)
                    &&& *final(self) == (InternalHandle {
                        path: old(self).path,
                        handle: OurHandle::File(*final(file)),
                    })
                },
                Err(code) => {
                    &&& old(self).handle is Dir
                    &&& code == StatusCode::NoSuchFile
                    &&& *final(self) == *old(self)
                },
            },
    {
        match &mut self.handle {
            OurHandle::File(file) => Ok(file),
            _ => Err(StatusCode::NoSuchFile),
        }
    }

    /// Whether the directory has been read.
    pub fn directory(&mut self) -> (r: Result<&mut bool, StatusCode>)
        ensures
            match r {
                Ok(read) => {
                    &&& old(self).handle == OurHandle::<F>::Dir(*read)
                    &&& *final(self) == (InternalHandle {
                        path: old(self).path,
                        handle: OurHandle::<F>::Dir(*final(read)),
                    })
                },
                Err(code) => {
                    &&& old(self).handle is File
                    &&& code == StatusCode::NoSuchFile
                    &&& *final(self) == *old(self)
                },
            },
    {
        match &mut self.handle {
            OurHandle::Dir(read) => Ok(read),
            _ => Err(StatusCode::NoSuchFile),
        }
    }
}

/// Open handles by name. No name stands in the table twice.
pub struct HandleTable<F> {
    entries: Vec<(String, InternalHandle<F>)>,
}

impl<F> View for HandleTable<F> {
    type V = Map<Seq<char>, InternalHandle<F>>;

    closed spec fn view(&self) -> Map<Seq<char>, InternalHandle<F>> {
        as_map(self.entries@)
    }
}

/// The table by name.
closed spec fn as_map<F>(entries: Seq<(String, InternalHandle<F>)>) -> Map<
    Seq<char>,
    InternalHandle<F>,
> {
    Map::new(
        |name: Seq<char>|
            exists|i: int| 0 <= i < entries.len() && (#[trigger] entries[i]).0@ == name,
        |name: Seq<char>|
            entries[choose|i: int| 0 <= i < entries.len() && (#[trigger] entries[i]).0@ == name].1,
    )
}

/// No name stands in the list twice.
closed spec fn distinct<F>(entries: Seq<(String, InternalHandle<F>)>) -> bool {
    forall|i: int, j: int|
        0 <= i < j < entries.len() ==> (#[trigger] entries[i]).0@ != (#[trigger] entries[j]).0@
}

proof fn as_map_at<F>(entries: Seq<(String, InternalHandle<F>)>, i: int)
    requires
        distinct(entries),
        0 <= i < entries.len(),
    ensures
        as_map(entries).contains_key(entries[i].0@),
        as_map(entries)[entries[i].0@] == entries[i].1,
{
}

/// A map that has what stands in the list, and nothing else, is the list by name.
proof fn as_map_is<F>(
    entries: Seq<(String, InternalHandle<F>)>,
    map: Map<Seq<char>, InternalHandle<F>>,
)
    requires
        distinct(entries),
        forall|i: int|
            0 <= i < entries.len() ==> map.contains_key((#[trigger] entries[i]).0@)
                && map[entries[i].0@] == entries[i].1,
        forall|name: Seq<char>| #[trigger]
            map.contains_key(name) ==> exists|i: int|
                0 <= i < entries.len() && (#[trigger] entries[i]).0@ == name,
    ensures
        as_map(entries) == map,
{
    assert forall|name: Seq<char>| map.contains_key(name) implies #[trigger] as_map(entries)[name]
        == map[name] by {
        let i = choose|i: int| 0 <= i < entries.len() && (#[trigger] entries[i]).0@ == name;
        as_map_at(entries, i);
    }
    assert(as_map(entries) =~= map);
}

proof fn as_map_update<F>(
    entries: Seq<(String, InternalHandle<F>)>,
    i: int,
    handle: InternalHandle<F>,
)
    requires
        distinct(entries),
        0 <= i < entries.len(),
    ensures
        distinct(entries.update(i, (entries[i].0, handle))),
        as_map(entries.update(i, (entries[i].0, handle))) == as_map(entries).insert(
            entries[i].0@,
            handle,
        ),
{
    let changed = entries.update(i, (entries[i].0, handle));
    let map = as_map(entries).insert(entries[i].0@, handle);
    assert forall|j: int| 0 <= j < changed.len() implies map.contains_key(
        (#[trigger] changed[j]).0@,
    ) && map[changed[j].0@] == changed[j].1 by {
        as_map_at(entries, j);
        assert(changed[j].0 == entries[j].0);
    }
    assert forall|name: Seq<char>| #[trigger] map.contains_key(name) implies exists|j: int|
        0 <= j < changed.len() && (#[trigger] changed[j]).0@ == name by {
        if name != entries[i].0@ {
            let j = choose|j: int| 0 <= j < entries.len() && (#[trigger] entries[j]).0@ == name;
            assert(changed[j].0@ == name);
        } else {
            assert(changed[i].0@ == name);
        }
    }
    as_map_is(changed, map);
}

impl<F> HandleTable<F> {
    /// No name stands in the table twice.
    pub closed spec fn wf(&self) -> bool {
        distinct(self.entries@)
    }

    /// A table with nothing in it.
    pub fn new() -> (r: Self)
        ensures
            r.wf(),
            r@ == Map::<Seq<char>, InternalHandle<F>>::empty(),
    {
        let r = HandleTable { entries: Vec::new() };
        proof {
            assert(r@ =~= Map::<Seq<char>, InternalHandle<F>>::empty());
        }
        r
    }

    /// The index of a name, or the length of the table.
    fn find(&self, name: &String) -> (r: usize)
        requires
            self.wf(),
        ensures
            r <= self.entries@.len(),
            r < self.entries@.len() ==> self.entries@[r as int].0@ == name@
                && self@.contains_key(name@) && self@[name@] == self.entries@[r as int].1,
            r == self.entries@.len() ==> !self@.contains_key(name@),
    {
        let mut i: usize = 0;
        while i < self.entries.len()
            invariant
                i <= self.entries@.len(),
                self.wf(),
                forall|j: int| 0 <= j < i ==> (#[trigger] self.entries@[j]).0@ != name@,
            decreases self.entries@.len() - i,
        {
            if self.entries[i].0 == *name {
                proof {
                    as_map_at(self.entries@, i as int);
                }
                return i;
            }
            i += 1;
        }
        i
    }

    /// What stands under a name.
    pub fn get(&self, name: &String) -> (r: Option<&InternalHandle<F>>)
        requires
            self.wf(),
        ensures
            match r {
                Some(handle) => self@.contains_key(name@) && self@[name@] == *handle,
                None => !self@.contains_key(name@),
            },
    {
        let i = self.find(name);
        if i < self.entries.len() {
            Some(&self.entries[i].1)
        } else {
            None
        }
    }

    /// What stands under a name, to be changed in place.
    pub fn get_mut(&mut self, name: &String) -> (r: Option<&mut InternalHandle<F>>)
        requires
            old(self).wf(),
        ensures
            final(self).wf(),
            match r {
                Some(handle) => {
                    &&& old(self)@.contains_key(name@)
                    &&& *handle == old(self)@[name@]
                    &&& final(self)@ == old(self)@.insert(name@, *final(handle))
                },
                None => !old(self)@.contains_key(name@) && *final(self) == *old(self),
            },
    {
        let i = self.find(name);
        if i < self.entries.len() {
            proof {
                let entries = self.entries@;
                assert forall|handle: InternalHandle<F>|
                    distinct(#[trigger] entries.update(i as int, (entries[i as int].0, handle)))
                        && as_map(entries.update(i as int, (entries[i as int].0, handle)))
                        == as_map(entries).insert(name@, handle) by {
                    as_map_update(entries, i as int, handle);
                }
            }
            Some(&mut self.entries[i].1)
        } else {
            None
        }
    }

    /// Takes a name out of the table.
    pub fn remove(&mut self, name: &String)
        requires
            old(self).wf(),
        ensures
            final(self).wf(),
            final(self)@ == old(self)@.remove(name@),
    {
        let i = self.find(name);
        if i < self.entries.len() {
            let ghost before = self.entries@;
            self.entries.swap_remove(i);
            proof {
                let after = self.entries@;
                let map = as_map(before).remove(name@);
                assert(distinct(after));
                assert forall|j: int| 0 <= j < after.len() implies map.contains_key(
                    (#[trigger] after[j]).0@,
                ) && map[after[j].0@] == after[j].1 by {
                    let k = if j == i {
                        before.len() - 1
                    } else {
                        j
                    };
                    assert(after[j] == before[k]);
                    as_map_at(before, k);
                }
                assert forall|key: Seq<char>| #[trigger]
                    map.contains_key(key) implies exists|j: int|
                    0 <= j < after.len() && (#[trigger] after[j]).0@ == key by {
                    let k = choose|k: int|
                        0 <= k < before.len() && (#[trigger] before[k]).0@ == key;
                    let j = if k == before.len() - 1 {
                        i as int
                    } else {
                        k
                    };
                    assert(after[j].0@ == key);
                }
                as_map_is(after, map);
            }
        } else {
            proof {
                assert(self@.remove(name@) =~= self@);
            }
        }
    }

    /// Puts a name into the table, in place of what stood under it.
    pub fn insert(&mut self, name: String, handle: InternalHandle<F>)
        requires
            old(self).wf(),
        ensures
            final(self).wf(),
            final(self)@ == old(self)@.insert(name@, handle),
    {
        self.remove(&name);
        let ghost before = self.entries@;
        self.entries.push((name, handle));
        proof {
            let after = self.entries@;
            let map = as_map(before).insert(name@, handle);
            assert(old(self)@.remove(name@).insert(name@, handle) =~= old(self)@.insert(
                name@,
                handle,
            ));
            assert forall|j: int| 0 <= j < before.len() implies (#[trigger] before[j]).0@
                != name@ by {
                as_map_at(before, j);
            }
            assert forall|j: int| 0 <= j < after.len() implies map.contains_key(
                (#[trigger] after[j]).0@,
            ) && map[after[j].0@] == after[j].1 by {
                if j < before.len() {
                    assert(after[j] == before[j]);
                    as_map_at(before, j);
                }
            }
            assert forall|key: Seq<char>| #[trigger] map.contains_key(key) implies exists|j: int|
                0 <= j < after.len() && (#[trigger] after[j]).0@ == key by {
                if key == name@ {
                    assert(after[before.len() as int].0@ == key);
                } else {
                    let k = choose|k: int|
                        0 <= k < before.len() && (#[trigger] before[k]).0@ == key;
                    assert(after[k].0@ == key);
                }
            }
            assert forall|j: int, k: int| 0 <= j < k < after.len() implies (#[trigger] after[j]).0@
                != (#[trigger] after[k]).0@ by {
                assert(after[j] == before[j]);
                if k < before.len() {
                    assert(after[k] == before[k]);
                }
            }
            as_map_is(after, map);
        }
    }
}

} // verus!
