//! The `sync` command: the walk through a folder tree that makes each folder
//! holding a `desktop.ini` read-only. The walk keeps the order and the depth;
//! the caller looks at the file system and hands back what it found.
use vstd::prelude::*;
use crate::error::Result;

verus! {

/// One step of the walk.
pub enum WalkItem {
    /// Look at the folder `dir`; below it, the walk goes `depth` levels deeper.
    Visit { dir: String, depth: u32 },
    /// One entry of a listed folder: a subfolder, something else (`None`), or
    /// the error met in reading it; `depth` is the depth of a subfolder.
    Entry { entry: Result<Option<String>>, depth: u32 },
}

/// The depth of the walk below `root` where the user gave `max_depth`:
/// unbounded (`u32::MAX`) where none was given.
pub open spec fn root_depth(max_depth: Option<u32>) -> u32 {
    match max_depth {
        Some(d) => d,
        None => u32::MAX,
    }
}

/// The steps that the entries of a folder listed at `depth` become, in the
/// order in which they are kept: the first entry comes out first.
pub open spec fn entry_items(entries: Seq<Result<Option<String>>>, depth: u32) -> Seq<WalkItem> {
    entries.reverse().map_values(|e: Result<Option<String>>| WalkItem::Entry { entry: e, depth: (depth - 1) as u32 })
}

/// Listing descends one level: the entries of a folder listed at `depth` are
/// handed out each at one level less, the first entry first.
pub proof fn lemma_listed_one_level_down(entries: Seq<Result<Option<String>>>, depth: u32)
    requires
        depth > 0,
    ensures
        entry_items(entries, depth).len() == entries.len(),
        forall|j: int|
            0 <= j < entries.len() ==> (#[trigger] entry_items(entries, depth)[j] matches WalkItem::Entry {
                entry: e,
                depth: d,
            } && d + 1 == depth && e == entries[entries.len() - 1 - j]),
{
}

/// A walk through a folder tree, depth first, each folder before what it holds,
/// with the number of folders made read-only so far.
pub struct Walk {
    stack: Vec<WalkItem>,
    changed: u64,
}

impl Walk {
    /// The steps still to take, the next one last.
    pub closed spec fn pending(&self) -> Seq<WalkItem> {
        self.stack@
    }

    /// The number of folders made read-only so far.
    pub closed spec fn count(&self) -> nat {
        self.changed as nat
    }

    /// A walk that starts at `root` and goes at most `max_depth` levels below it.
    pub fn new(root: String, max_depth: Option<u32>) -> (w: Walk)
        ensures
            w.pending() == seq![WalkItem::Visit { dir: root, depth: root_depth(max_depth) }],
            w.count() == 0,
    {
        let depth = match max_depth {
            Some(d) => d,
            None => u32::MAX,
        };
        let mut stack: Vec<WalkItem> = Vec::new();
        stack.push(WalkItem::Visit { dir: root, depth });
        let w = Walk { stack, changed: 0 };
        assert(w.pending() =~= seq![WalkItem::Visit { dir: root, depth: root_depth(max_depth) }]);
        w
    }

    /// The next step; `None` where the walk is over.
    pub fn next(&mut self) -> (item: Option<WalkItem>)
        ensures
            old(self).pending().len() == 0 ==> item is None && final(self).pending() == old(self).pending(),
            old(self).pending().len() > 0 ==> item == Some(old(self).pending().last())
                && final(self).pending() == old(self).pending().drop_last(),
            final(self).count() == old(self).count(),
    {
        self.stack.pop()
    }

    /// Records what looking at a folder came to: `Some(true)` where it was
    /// made read-only, `Some(false)` where it was left as it was, `None` where
    /// the failure was passed over.
    pub fn checked(&mut self, made_read_only: Option<bool>)
        requires
            old(self).count() < u64::MAX,
        ensures
            final(self).pending() == old(self).pending(),
            final(self).count() == old(self).count() + if made_read_only == Some(true) {
                1nat
            } else {
                0nat
            },
    {
        if let Some(true) = made_read_only {
            self.changed = self.changed + 1;
        }
    }

    /// Whether a folder visited at `depth` is listed: unless the walk may go
    /// no deeper.
    pub fn descends(depth: u32) -> (b: bool)
        ensures
            b == (depth > 0),
    {
        depth > 0
    }

    /// Adds the entries of a folder listed at `depth`; the first entry is the
    /// next step.
    pub fn listed(&mut self, depth: u32, entries: Vec<Result<Option<String>>>)
        requires
            depth > 0,
        ensures
            final(self).pending() == old(self).pending() + entry_items(entries@, depth),
            final(self).pending().len() == old(self).pending().len() + entries@.len(),
            forall|j: int|
                0 <= j < entries@.len() ==> (#[trigger] final(self).pending()[old(self).pending().len() + j] matches WalkItem::Entry {
                    entry: e,
                    depth: d,
                } && d + 1 == depth && e == entries@[entries@.len() - 1 - j]),
            final(self).count() == old(self).count(),
    {
        let ghost start = self.stack@;
        let ghost c0 = self.changed;
        let ghost all = entries@;
        let ghost items = entry_items(all, depth);
        let mut entries = entries;
        assert(all.take(all.len() as int) == all);
        assert(items.take(0) =~= Seq::<WalkItem>::empty());
        assert(start + items.take(0) =~= start);
        while entries.len() > 0
            invariant
                depth > 0,
                self.changed == c0,
                items == entry_items(all, depth),
                items.len() == all.len(),
                entries@.len() <= all.len(),
                entries@ == all.take(entries@.len() as int),
                self.stack@ == start + items.take(all.len() - entries@.len()),
            decreases entries@.len(),
        {
            let ghost k = entries@.len() as int;
            let e = entries.pop().unwrap();
            assert(e == all[k - 1]);
            assert(entries@ =~= all.take(k - 1));
            let ghost n = all.len() - k;
            assert(all.reverse()[n] == all[k - 1]);
            assert(items[n] == WalkItem::Entry { entry: all[k - 1], depth: (depth - 1) as u32 });
            self.stack.push(WalkItem::Entry { entry: e, depth: depth - 1 });
            assert(items.take(n + 1) =~= items.take(n).push(items[n]));
            assert(self.stack@ =~= start + items.take(n + 1));
        }
        assert(items.take(all.len() as int) == items);
        proof {
            lemma_listed_one_level_down(all, depth);
            assert forall|j: int| 0 <= j < all.len() implies #[trigger] self.stack@[start.len() + j] == items[j] by {}
        }
    }

    /// Adds a subfolder found at `depth`; it is the next step.
    pub fn enter(&mut self, dir: String, depth: u32)
        ensures
            final(self).pending() == old(self).pending().push(WalkItem::Visit { dir, depth }),
            final(self).count() == old(self).count(),
    {
        self.stack.push(WalkItem::Visit { dir, depth });
    }

    /// The number of folders made read-only.
    pub fn changed(&self) -> (n: u64)
        ensures
            n == self.count(),
    {
        self.changed
    }
}

} // verus!
