//! A simpler, title-keyed task list: each entry pairs a title with a flag,
//! `true` while the task is still to do, `false` once done. Titles are the
//! identity here, so they are kept unique; insertion order is preserved.

use vstd::prelude::*;
use vstd::string::StringExecFns;
use crate::cli::ListMode;

verus! {

pub struct TodoList {
    pub items: Vec<(String, bool)>,
}

/// The entries as plain values: title characters and flag.
pub open spec fn entries(items: Seq<(String, bool)>) -> Seq<(Seq<char>, bool)> {
    items.map_values(|p: (String, bool)| (p.0@, p.1))
}

/// Some entry carries the title `key`.
pub open spec fn has_key(m: Seq<(Seq<char>, bool)>, key: Seq<char>) -> bool {
    exists|i: int| 0 <= i < m.len() && m[i].0 == key
}

/// The position of the entry carrying `key`; meaningful when `has_key` holds
/// and the titles are distinct.
pub open spec fn idx_of_key(m: Seq<(Seq<char>, bool)>, key: Seq<char>) -> int {
    choose|i: int| 0 <= i < m.len() && m[i].0 == key
}

/// The invariant: titles are pairwise distinct.
pub open spec fn keys_unique(m: Seq<(Seq<char>, bool)>) -> bool {
    forall|i: int, j: int| 0 <= i < j < m.len() ==> m[i].0 != m[j].0
}

/// What `mark` does on success: the entry carrying `key` gets the requested
/// flag; everything else stays.
pub open spec fn mark_key_model(m: Seq<(Seq<char>, bool)>, key: Seq<char>, value: bool) -> Seq<
    (Seq<char>, bool),
> {
    Seq::new(
        m.len(),
        |i: int|
            if m[i].0 == key {
                (m[i].0, value)
            } else {
                m[i]
            },
    )
}

/// Which flag value a listing mode selects.
pub open spec fn mode_sel(mode: ListMode, value: bool) -> bool {
    match mode {
        ListMode::All => true,
        ListMode::Done => !value,
        ListMode::Todo => value,
    }
}

/// The titles of a sequence of entries, in order.
pub open spec fn keys_of(m: Seq<(Seq<char>, bool)>) -> Seq<Seq<char>> {
    m.map_values(|p: (Seq<char>, bool)| p.0)
}

/// The views of a vector of strings.
pub open spec fn strings_view(s: Seq<String>) -> Seq<Seq<char>> {
    s.map_values(|x: String| x@)
}

impl View for TodoList {
    type V = Seq<(Seq<char>, bool)>;

    open spec fn view(&self) -> Seq<(Seq<char>, bool)> {
        entries(self.items@)
    }
}

/// The message `mark` returns for an unknown title.
pub open spec fn mark_key_err_msg(key: Seq<char>) -> Seq<char> {
    "Key '"@ + key + "' is not found."@
}

/// The message `remove` returns for an unknown title.
pub open spec fn remove_key_err_msg(key: Seq<char>) -> Seq<char> {
    "Key "@ + key + " is not found."@
}

/// A message of the shape `<prefix><key><suffix>`.
fn key_message(prefix: &str, key: &str, suffix: &str) -> (r: String)
    ensures
        r@ == prefix@ + key@ + suffix@,
{
    let mut s = String::from_str(prefix);
    s.append(key);
    s.append(suffix);
    proof {
        assert(s@ =~= prefix@ + key@ + suffix@);
    }
    s
}

impl TodoList {
    /// Create an empty list.
    pub fn new() -> (r: TodoList)
        ensures
            r@ == Seq::<(Seq<char>, bool)>::empty(),
            keys_unique(r@),
    {
        let r = TodoList { items: Vec::new() };
        proof {
            assert(r@ =~= Seq::<(Seq<char>, bool)>::empty());
        }
        r
    }

    /// Look the flag of a title up.
    pub fn get(&self, key: &str) -> (r: Option<bool>)
        requires
            keys_unique(self@),
        ensures
            has_key(self@, key@) ==> r == Some(self@[idx_of_key(self@, key@)].1),
            !has_key(self@, key@) ==> r is None,
    {
        let owned = key.to_owned();
        let n = self.items.len();
        let mut i: usize = 0;
        while i < n
            invariant
                n == self.items@.len(),
                owned@ == key@,
                0 <= i <= n,
                keys_unique(self@),
                forall|j: int| 0 <= j < i ==> self@[j].0 != key@,
            decreases n - i,
        {
            if self.items[i].0.eq(&owned) {
                proof {
                    assert(self@[i as int].0 == key@);
                    let k = idx_of_key(self@, key@);
                    assert(0 <= k < self@.len() && self@[k].0 == key@);
                    assert(k == i);
                }
                return Some(self.items[i].1);
            }
            i += 1;
        }
        None
    }

    /// Insert a fresh title as still-to-do; a title already present is left
    /// exactly as it is, flag included.
    pub fn add(&mut self, key: String)
        requires
            keys_unique(old(self)@),
        ensures
            keys_unique(final(self)@),
            has_key(old(self)@, key@) ==> final(self)@ == old(self)@,
            !has_key(old(self)@, key@) ==> final(self)@ == old(self)@.push((key@, true)),
    {
        let n = self.items.len();
        let mut i: usize = 0;
        while i < n
            invariant
                n == self.items@.len(),
                self.items@ == old(self).items@,
                keys_unique(old(self)@),
                0 <= i <= n,
                forall|j: int| 0 <= j < i ==> self@[j].0 != key@,
            decreases n - i,
        {
            if self.items[i].0.eq(&key) {
                proof {
                    assert(self@[i as int].0 == key@);
                }
                return ;
            }
            i += 1;
        }
        self.items.push((key, true));
        proof {
            assert(self@ =~= old(self)@.push((key@, true)));
        }
    }

    /// Set the flag of the entry carrying `key`. An unknown title is reported
    /// and leaves the list unchanged.
    pub fn mark(&mut self, key: &str, value: bool) -> (r: Result<(), String>)
        requires
            keys_unique(old(self)@),
        ensures
            keys_unique(final(self)@),
            r is Ok <==> has_key(old(self)@, key@),
            r is Ok ==> final(self)@ == mark_key_model(old(self)@, key@, value),
            r is Err ==> final(self)@ == old(self)@,
            r matches Err(m) ==> m@ == mark_key_err_msg(key@),
    {
        let owned = key.to_owned();
        let n = self.items.len();
        let mut i: usize = 0;
        while i < n
            invariant
                n == self.items@.len(),
                self.items@ == old(self).items@,
                owned@ == key@,
                0 <= i <= n,
                keys_unique(old(self)@),
                forall|j: int| 0 <= j < i ==> self@[j].0 != key@,
            decreases n - i,
        {
            if self.items[i].0.eq(&owned) {
                proof {
                    assert(old(self)@[i as int].0 == key@);
                    assert(has_key(old(self)@, key@));
                }
                let title = self.items[i].0.clone();
                self.items[i] = (title, value);
                proof {
                    let mo = old(self)@;
                    assert forall|j: int| 0 <= j < mo.len() implies self@[j] == mark_key_model(
                        mo,
                        key@,
                        value,
                    )[j] by {
                        if j != i {
                            assert(mo[j].0 != key@);
                        }
                    }
                    assert(self@ =~= mark_key_model(mo, key@, value));
                }
                return Ok(());
            }
            i += 1;
        }
        proof {
            assert(self@ =~= old(self)@);
        }
        Err(key_message("Key '", key, "' is not found."))
    }

    /// The entries a mode selects, in insertion order.
    pub fn list(&self, mode: ListMode) -> (r: Vec<(String, bool)>)
        ensures
            entries(r@) == self@.filter(|p: (Seq<char>, bool)| mode_sel(mode, p.1)),
    {
        let mut out: Vec<(String, bool)> = Vec::new();
        let mut i: usize = 0;
        proof {
            assert(self@.subrange(0, 0) =~= Seq::<(Seq<char>, bool)>::empty());
            reveal(Seq::filter);
        }
        while i < self.items.len()
            invariant
                0 <= i <= self.items@.len(),
                entries(out@) == self@.subrange(0, i as int).filter(
                    |p: (Seq<char>, bool)| mode_sel(mode, p.1),
                ),
            decreases self.items@.len() - i,
        {
            let selected = match mode {
                ListMode::All => true,
                ListMode::Done => !self.items[i].1,
                ListMode::Todo => self.items[i].1,
            };
            if selected {
                let title = self.items[i].0.clone();
                out.push((title, self.items[i].1));
            }
            proof {
                reveal(Seq::filter);
                let pre = self@.subrange(0, i as int);
                let post = self@.subrange(0, i + 1);
                assert(post.drop_last() =~= pre);
                assert(post.last() == self@[i as int]);
                assert(entries(out@) =~= post.filter(|p: (Seq<char>, bool)| mode_sel(mode, p.1)));
            }
            i += 1;
        }
        proof {
            assert(self@.subrange(0, self@.len() as int) =~= self@);
        }
        out
    }

    /// Every title, in insertion order.
    pub fn all(&self) -> (r: Vec<String>)
        ensures
            strings_view(r@) == keys_of(self@),
    {
        let mut out: Vec<String> = Vec::new();
        let mut i: usize = 0;
        while i < self.items.len()
            invariant
                0 <= i <= self.items@.len(),
                strings_view(out@) == keys_of(self@.subrange(0, i as int)),
            decreases self.items@.len() - i,
        {
            let title = self.items[i].0.clone();
            let ghost prev = out@;
            out.push(title);
            proof {
                assert(out@ == prev.push(title));
                assert(strings_view(prev).len() == prev.len());
                assert(keys_of(self@.subrange(0, i as int)).len() == i);
                assert(prev.len() == i);
                assert(title@ == self.items@[i as int].0@);
                assert forall|j: int| 0 <= j < i + 1 implies strings_view(out@)[j] == keys_of(
                    self@.subrange(0, i + 1),
                )[j] by {
                    assert(self@.subrange(0, i + 1)[j] == self@[j]);
                    assert(self@[j] == (self.items@[j].0@, self.items@[j].1));
                    if j < i {
                        assert(strings_view(prev)[j] == keys_of(self@.subrange(0, i as int))[j]);
                        assert(self@.subrange(0, i as int)[j] == self@[j]);
                        assert(out@[j] == prev[j]);
                    } else {
                        assert(out@[j]@ == self.items@[j].0@);
                    }
                }
                assert(strings_view(out@) =~= keys_of(self@.subrange(0, i + 1)));
            }
            i += 1;
        }
        proof {
            assert(self@.subrange(0, self@.len() as int) =~= self@);
        }
        out
    }

    /// The titles still to do, in insertion order.
    pub fn pending(&self) -> (r: Vec<String>)
        ensures
            strings_view(r@) == keys_of(self@.filter(|p: (Seq<char>, bool)| p.1)),
    {
        let mut out: Vec<String> = Vec::new();
        let mut i: usize = 0;
        proof {
            assert(self@.subrange(0, 0) =~= Seq::<(Seq<char>, bool)>::empty());
            reveal(Seq::filter);
        }
        while i < self.items.len()
            invariant
                0 <= i <= self.items@.len(),
                strings_view(out@) == keys_of(
                    self@.subrange(0, i as int).filter(|p: (Seq<char>, bool)| p.1),
                ),
            decreases self.items@.len() - i,
        {
            if self.items[i].1 {
                out.push(self.items[i].0.clone());
            }
            proof {
                reveal(Seq::filter);
                let pre = self@.subrange(0, i as int);
                let post = self@.subrange(0, i + 1);
                assert(post.drop_last() =~= pre);
                assert(post.last() == self@[i as int]);
                if self@[i as int].1 {
                    assert(keys_of(post.filter(|p: (Seq<char>, bool)| p.1)) =~= keys_of(
                        pre.filter(|p: (Seq<char>, bool)| p.1),
                    ).push(self@[i as int].0));
                    assert(strings_view(out@) =~= keys_of(post.filter(|p: (Seq<char>, bool)| p.1)));
                } else {
                    assert(strings_view(out@) =~= keys_of(post.filter(|p: (Seq<char>, bool)| p.1)));
                }
            }
            i += 1;
        }
        proof {
            assert(self@.subrange(0, self@.len() as int) =~= self@);
        }
        out
    }

    /// The completed titles, in insertion order.
    pub fn done(&self) -> (r: Vec<String>)
        ensures
            strings_view(r@) == keys_of(self@.filter(|p: (Seq<char>, bool)| !p.1)),
    {
        let mut out: Vec<String> = Vec::new();
        let mut i: usize = 0;
        proof {
            assert(self@.subrange(0, 0) =~= Seq::<(Seq<char>, bool)>::empty());
            reveal(Seq::filter);
        }
        while i < self.items.len()
            invariant
                0 <= i <= self.items@.len(),
                strings_view(out@) == keys_of(
                    self@.subrange(0, i as int).filter(|p: (Seq<char>, bool)| !p.1),
                ),
            decreases self.items@.len() - i,
        {
            if !self.items[i].1 {
                out.push(self.items[i].0.clone());
            }
            proof {
                reveal(Seq::filter);
                let pre = self@.subrange(0, i as int);
                let post = self@.subrange(0, i + 1);
                assert(post.drop_last() =~= pre);
                assert(post.last() == self@[i as int]);
                if !self@[i as int].1 {
                    assert(keys_of(post.filter(|p: (Seq<char>, bool)| !p.1)) =~= keys_of(
                        pre.filter(|p: (Seq<char>, bool)| !p.1),
                    ).push(self@[i as int].0));
                    assert(strings_view(out@) =~= keys_of(
                        post.filter(|p: (Seq<char>, bool)| !p.1),
                    ));
                } else {
                    assert(strings_view(out@) =~= keys_of(
                        post.filter(|p: (Seq<char>, bool)| !p.1),
                    ));
                }
            }
            i += 1;
        }
        proof {
            assert(self@.subrange(0, self@.len() as int) =~= self@);
        }
        out
    }

    /// Delete the entry carrying `key`, preserving the order of the rest. An
    /// unknown title is reported and leaves the list unchanged.
    pub fn remove(&mut self, key: &str) -> (r: Result<(), String>)
        requires
            keys_unique(old(self)@),
        ensures
            keys_unique(final(self)@),
            r is Ok <==> has_key(old(self)@, key@),
            r is Ok ==> final(self)@ == old(self)@.remove(idx_of_key(old(self)@, key@)),
            r is Err ==> final(self)@ == old(self)@,
            r matches Err(m) ==> m@ == remove_key_err_msg(key@),
    {
        let owned = key.to_owned();
        let n = self.items.len();
        let mut i: usize = 0;
        while i < n
            invariant
                n == self.items@.len(),
                self.items@ == old(self).items@,
                owned@ == key@,
                0 <= i <= n,
                keys_unique(old(self)@),
                forall|j: int| 0 <= j < i ==> self@[j].0 != key@,
            decreases n - i,
        {
            if self.items[i].0.eq(&owned) {
                proof {
                    assert(old(self)@[i as int].0 == key@);
                    assert(has_key(old(self)@, key@));
                    let k = idx_of_key(old(self)@, key@);
                    assert(0 <= k < old(self)@.len() && old(self)@[k].0 == key@);
                    assert(k == i);
                }
                self.items.remove(i);
                proof {
                    assert(self@ =~= old(self)@.remove(i as int));
                }
                return Ok(());
            }
            i += 1;
        }
        proof {
            assert(self@ =~= old(self)@);
        }
        Err(key_message("Key ", key, " is not found."))
    }
}

} // verus!
