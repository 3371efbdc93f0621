//! Application-side state the host shell drives: the preview navigation
//! history and the control verdict of a menu event.

use std::collections::VecDeque;
use vstd::prelude::*;

use crate::wire::{ascii, push_ascii};

verus! {

/// What the event loop should do after handling a menu event.
#[derive(Debug)]
pub enum AppControl {
    Continue,
    Exit,
}

/// Whether `home` names a directory the path lies under: a byte-wise
/// prefix followed by a separator, or the whole path.
pub open spec fn under_home(path: Seq<u8>, home: Seq<u8>) -> bool {
    &&& home.len() <= path.len()
    &&& path.take(home.len() as int) == home
    &&& (path.len() == home.len() || path[home.len() as int] == 47)
}

/// The rest of a path under the home directory: what follows the
/// separator, or nothing for the home directory itself.
pub open spec fn home_rest(path: Seq<u8>, home: Seq<u8>) -> Seq<u8> {
    if path.len() == home.len() {
        Seq::empty()
    } else {
        path.skip(home.len() as int + 1)
    }
}

/// The window title of a previewed path: the home directory, when
/// known and when the path lies under it, is abbreviated to a tilde.
pub fn title(path: &[u8], home: Option<&Vec<u8>>) -> (r: Vec<u8>)
    ensures
        r@ == match home {
            Option::Some(h) => {
                if under_home(path@, h@) {
                    ascii("Shiba: ~/"@) + home_rest(path@, h@)
                } else {
                    ascii("Shiba: "@) + path@
                }
            },
            Option::None => ascii("Shiba: "@) + path@,
        },
{
    let mut r: Vec<u8> = Vec::new();
    if let Some(h) = home {
        let hn = h.len();
        if hn <= path.len() {
            let head = vstd::slice::slice_subrange(path, 0, hn);
            proof {
                assert(head@ =~= path@.take(hn as int));
            }
            if crate::serializer::bytes_eq(head, h.as_slice()) && (path.len() == hn || path[hn]
                == 47) {
                proof {
                    reveal_strlit("Shiba: ~/");
                }
                push_ascii(&mut r, "Shiba: ~/");
                if path.len() > hn {
                    let rest = vstd::slice::slice_subrange(path, hn + 1, path.len());
                    proof {
                        assert(rest@ =~= path@.skip(hn as int + 1));
                    }
                    crate::escape::push_bytes(&mut r, rest);
                }
                proof {
                    assert(r@ =~= ascii("Shiba: ~/"@) + home_rest(path@, h@));
                }
                return r;
            }
        }
    }
    proof {
        reveal_strlit("Shiba: ");
    }
    push_ascii(&mut r, "Shiba: ");
    crate::escape::push_bytes(&mut r, path);
    proof {
        assert(r@ =~= ascii("Shiba: "@) + path@);
    }
    r
}

/// Whether a path is among the listed ones.
pub open spec fn contains_path(paths: Seq<Vec<u8>>, p: Seq<u8>) -> bool {
    exists|i: int| 0 <= i < paths.len() && paths[i]@ == p
}

/// What to preview after a change notification.
#[derive(Debug)]
pub enum ChangedPick {
    Current,
    Last,
    Nothing,
}

/// Decide which file a change notification previews: the current one
/// when it is among the changed paths, otherwise the last changed
/// path, otherwise nothing.
pub fn pick_changed_path(current: Option<&Vec<u8>>, paths: &Vec<Vec<u8>>) -> (r: ChangedPick)
    ensures
        (current is Some && contains_path(paths@, current.unwrap()@)) ==> r
            == ChangedPick::Current,
        (current is None || !contains_path(paths@, current.unwrap()@)) ==> r == (if paths@.len()
            > 0 {
            ChangedPick::Last
        } else {
            ChangedPick::Nothing
        }),
{
    if let Some(c) = current {
        let mut i: usize = 0;
        while i < paths.len()
            invariant
                current == Option::Some(c),
                i <= paths@.len(),
                forall|j: int| 0 <= j < i ==> paths@[j]@ != c@,
            decreases paths@.len() - i,
        {
            let entry: &Vec<u8> = vstd::slice::slice_index_get(paths.as_slice(), i);
            if crate::serializer::bytes_eq(entry.as_slice(), c.as_slice()) {
                proof {
                    assert(paths@[i as int]@ == c@);
                    assert(contains_path(paths@, c@));
                }
                return ChangedPick::Current;
            }
            i += 1;
        }
        proof {
            assert(!contains_path(paths@, c@));
        }
    }
    if paths.len() > 0 {
        ChangedPick::Last
    } else {
        ChangedPick::Nothing
    }
}

/// Bounded two-way navigation history of previewed paths.
pub struct History {
    pub max_items: usize,
    pub index: usize,
    pub items: VecDeque<String>,
}

/// The items and cursor a push leaves behind: nothing on a zero bound
/// or a repeated current item; an item recorded with no current one
/// leaves the cursor alone; otherwise the oldest item falls out when
/// the bound is reached, anything ahead of the cursor is cut, and the
/// new item lands at the new cursor.
pub open spec fn hist_push(items: Seq<Seq<char>>, index: int, max: int, item: Seq<char>) -> (
    Seq<Seq<char>>,
    int,
) {
    if max == 0 {
        (items, index)
    } else if index >= items.len() {
        (items.push(item), index)
    } else if items[index] == item {
        (items, index)
    } else {
        let evict = items.len() == max;
        let its1 = if evict {
            items.skip(1)
        } else {
            items
        };
        let idx1 = if evict && index > 0 {
            index - 1
        } else if evict {
            0int
        } else {
            index
        };
        let its2 = if idx1 + 1 < its1.len() {
            its1.take(idx1 + 1)
        } else {
            its1
        };
        (its2.push(item), idx1 + 1)
    }
}

impl History {
    /// The stored paths, newest last.
    pub open spec fn view_items(&self) -> Seq<Seq<char>> {
        self.items@.map_values(|s: String| s@)
    }

    /// The cursor never runs ahead of the stored items by more than
    /// one: it sits on an item or just past the newest one.
    pub open spec fn wf(&self) -> bool {
        self.index <= self.items@.len()
    }

    /// An empty history bounded by `max_items`.
    pub fn new(max_items: usize) -> (h: History)
        ensures
            h.wf(),
            h.max_items == max_items,
            h.index == 0,
            h.view_items() == Seq::<Seq<char>>::empty(),
    {
        let h = History { max_items, index: 0, items: VecDeque::new() };
        proof {
            assert(h.view_items() =~= Seq::<Seq<char>>::empty());
        }
        h
    }

    /// Record a newly previewed path: repeated pushes of the current
    /// path do nothing, the oldest entry falls out at the bound, and
    /// any forward items beyond the cursor are discarded.
    pub fn push(&mut self, item: String)
        requires
            old(self).wf(),
        ensures
            final(self).wf(),
            final(self).max_items == old(self).max_items,
            ({
                let (its, idx) = hist_push(
                    old(self).view_items(),
                    old(self).index as int,
                    old(self).max_items as int,
                    item@,
                );
                final(self).view_items() == its && final(self).index as int == idx
            }),
    {
        if self.max_items == 0 {
            return;
        }
        if self.index >= self.items.len() {
            self.items.push_back(item);
            proof {
                assert(self.view_items() =~= old(self).view_items().push(item@));
            }
            return;
        }
        let current: &String = &self.items[self.index];
        proof {
            assert(self.view_items()[self.index as int] == self.items@[self.index as int]@);
        }
        if *current == item {
            return;
        }
        if self.items.len() == self.max_items {
            self.items.pop_front();
            if self.index > 0 {
                self.index = self.index - 1;
            }
            proof {
                assert(self.view_items() =~= old(self).view_items().skip(1));
            }
        }
        if self.index + 1 < self.items.len() {
            let ghost before = self.view_items();
            self.items.truncate(self.index + 1);
            proof {
                assert(self.view_items() =~= before.take(self.index as int + 1));
            }
        }
        self.index = self.index + 1;
        let ghost cut = self.view_items();
        self.items.push_back(item);
        proof {
            assert(self.view_items() =~= cut.push(item@));
            let (its, idx) = hist_push(
                old(self).view_items(),
                old(self).index as int,
                old(self).max_items as int,
                item@,
            );
            assert(self.view_items() =~= its);
        }
    }

    /// Step the cursor forward when a next item exists.
    pub fn forward(&mut self)
        requires
            old(self).wf(),
        ensures
            final(self).wf(),
            final(self).items@ == old(self).items@,
            final(self).max_items == old(self).max_items,
            final(self).index == (if old(self).index + 1 < old(self).items@.len() {
                old(self).index + 1
            } else {
                old(self).index as int
            }),
    {
        let n = self.items.len();
        if n > 0 && self.index < n - 1 {
            self.index = self.index + 1;
        }
    }

    /// Step the cursor back when a previous item exists.
    pub fn back(&mut self)
        requires
            old(self).wf(),
        ensures
            final(self).wf(),
            final(self).items@ == old(self).items@,
            final(self).max_items == old(self).max_items,
            final(self).index == (if old(self).index > 0 {
                old(self).index - 1
            } else {
                0int
            }),
    {
        if self.index > 0 {
            self.index = self.index - 1;
        }
    }

    /// The item ahead of the cursor, if any.
    pub fn next(&self) -> (r: Option<&String>)
        requires
            self.wf(),
        ensures
            ({
                if self.index + 1 < self.items@.len() {
                    r is Some && r.unwrap()@ == self.view_items()[self.index as int + 1]
                } else {
                    r is None
                }
            }),
    {
        let n = self.items.len();
        if n > 0 && self.index < n - 1 {
            Some(&self.items[self.index + 1])
        } else {
            None
        }
    }

    /// The item behind the cursor, if any.
    pub fn prev(&self) -> (r: Option<&String>)
        requires
            self.wf(),
        ensures
            ({
                if self.index > 0 {
                    r is Some && r.unwrap()@ == self.view_items()[self.index as int - 1]
                } else {
                    r is None
                }
            }),
    {
        if self.index > 0 {
            Some(&self.items[self.index - 1])
        } else {
            None
        }
    }

    /// The item under the cursor, if any.
    pub fn current(&self) -> (r: Option<&String>)
        ensures
            ({
                if self.index < self.items@.len() {
                    r is Some && r.unwrap()@ == self.view_items()[self.index as int]
                } else {
                    r is None
                }
            }),
    {
        if self.index < self.items.len() {
            Some(&self.items[self.index])
        } else {
            None
        }
    }

    /// Whether `path` is the item currently previewed.
    pub fn is_current(&self, path: &String) -> (r: bool)
        requires
            self.wf(),
        ensures
            r == (self.index < self.items@.len() && self.view_items()[self.index as int]
                == path@),
    {
        match self.current() {
            Some(current) => *current == *path,
            None => false,
        }
    }
}

} // verus!
