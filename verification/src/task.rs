//! The task-progress tree: plain create/read/update/delete over task
//! control blocks with parent/child links and monotonically allocated
//! ids. Progress is carried as its decimal text, exactly as it arrives on
//! the wire and leaves in JSON.

use vstd::prelude::*;
use crate::error::Error;

verus! {

/// One task control block.
pub struct TCB {
    pub id: u64,
    pub name: String,
    /// The progress fraction, as decimal text.
    pub progress: String,
    pub current_work: String,
    pub parent: u64,
    /// Child task ids, kept only for display.
    pub children: Vec<u64>,
}

/// The mathematical shape of a task.
pub struct TcbV {
    pub id: u64,
    pub name: Seq<char>,
    pub progress: Seq<char>,
    pub current_work: Seq<char>,
    pub parent: u64,
    pub children: Seq<u64>,
}

pub open spec fn tcb_view(t: TCB) -> TcbV {
    TcbV {
        id: t.id,
        name: t.name@,
        progress: t.progress@,
        current_work: t.current_work@,
        parent: t.parent,
        children: t.children@,
    }
}

/// The task store: tasks in creation order, and the next id to hand out.
pub struct TaskTree {
    pub tasks: Vec<TCB>,
    pub next_id: u64,
}

/// The shape of the store.
pub open spec fn tasks_view(t: TaskTree) -> Seq<TcbV> {
    Seq::new(t.tasks@.len(), |i: int| tcb_view(t.tasks@[i]))
}

/// The first task index at or after `i` with id `id`.
pub open spec fn tfind_from(ts: Seq<TcbV>, id: u64, i: int) -> Option<int>
    decreases ts.len() - i,
{
    if i < 0 || i >= ts.len() {
        None
    } else if ts[i].id == id {
        Some(i)
    } else {
        tfind_from(ts, id, i + 1)
    }
}

/// The first index at or after `i` of `x` in an id list.
pub open spec fn idfind_from(ids: Seq<u64>, x: u64, i: int) -> Option<int>
    decreases ids.len() - i,
{
    if i < 0 || i >= ids.len() {
        None
    } else if ids[i] == x {
        Some(i)
    } else {
        idfind_from(ids, x, i + 1)
    }
}

/// A fresh task: empty current work, zero progress, no children.
pub open spec fn fresh_task(id: u64, name: Seq<char>, parent: u64) -> TcbV {
    TcbV {
        id: id,
        name: name,
        progress: "0"@,
        current_work: Seq::<char>::empty(),
        parent: parent,
        children: Seq::<u64>::empty(),
    }
}

/// The store after `create`: the new task appended, and the parent's
/// child list extended when the parent exists.
pub open spec fn task_create_m(ts: Seq<TcbV>, id: u64, name: Seq<char>, parent: u64) -> Seq<
    TcbV,
> {
    let with_new = ts.push(fresh_task(id, name, parent));
    match tfind_from(ts, parent, 0) {
        Some(i) => with_new.update(
            i,
            TcbV { children: ts[i].children.push(id), ..ts[i] },
        ),
        None => with_new,
    }
}

/// One attribute update.
pub enum TaskAttr {
    Name(String),
    Progress(String),
    CurrentWork(String),
}

pub open spec fn task_modify_node(t: TcbV, a: TaskAttr) -> TcbV {
    match a {
        TaskAttr::Name(v) => TcbV { name: v@, ..t },
        TaskAttr::Progress(v) => TcbV { progress: v@, ..t },
        TaskAttr::CurrentWork(v) => TcbV { current_work: v@, ..t },
    }
}

/// The store after `remove`: the task dropped, and its id withdrawn from
/// its parent's child list when the parent survives.
pub open spec fn task_remove_m(ts: Seq<TcbV>, i: int) -> Seq<TcbV> {
    let parent = ts[i].parent;
    let id = ts[i].id;
    let without = ts.remove(i);
    match tfind_from(without, parent, 0) {
        Some(p) => {
            let cs = without[p].children;
            match idfind_from(cs, id, 0) {
                Some(c) => without.update(p, TcbV { children: cs.remove(c), ..without[p] }),
                None => without,
            }
        },
        None => without,
    }
}

impl TaskTree {
    /// An empty store; ids start at 1.
    pub fn new() -> (t: TaskTree)
        ensures
            tasks_view(t) =~= Seq::<TcbV>::empty(),
            t.next_id == 1,
    {
        TaskTree { tasks: Vec::new(), next_id: 1 }
    }

    /// The task index for `id`, if any.
    fn find(&self, id: u64) -> (r: Option<usize>)
        ensures
            match r {
                Some(i) => i < self.tasks@.len() && tfind_from(tasks_view(*self), id, 0) == Some(
                    i as int,
                ),
                None => tfind_from(tasks_view(*self), id, 0) is None,
            },
    {
        let ghost ts = tasks_view(*self);
        let mut i: usize = 0;
        while i < self.tasks.len()
            invariant
                i <= self.tasks@.len(),
                ts == tasks_view(*self),
                ts.len() == self.tasks@.len(),
                tfind_from(ts, id, 0) == tfind_from(ts, id, i as int),
            decreases self.tasks@.len() - i,
        {
            if self.tasks[i].id == id {
                return Some(i);
            }
            i = i + 1;
        }
        None
    }

    /// Creates a task under `parent_id` and returns its id. A parent that
    /// does not exist leaves the new task parentless in practice: the
    /// stored parent id is kept but no child link is added.
    pub fn create(&mut self, name: String, parent_id: u64) -> (r: u64)
        requires
            old(self).next_id < u64::MAX,
        ensures
            r == old(self).next_id,
            final(self).next_id == old(self).next_id + 1,
            tasks_view(*final(self)) == task_create_m(
                tasks_view(*old(self)),
                old(self).next_id,
                name@,
                parent_id,
            ),
    {
        let ghost ts = tasks_view(*self);
        let id = self.next_id;
        let t = TCB {
            id,
            name,
            progress: "0".to_owned(),
            current_work: String::new(),
            parent: parent_id,
            children: Vec::new(),
        };
        proof {
            assert(tcb_view(t) == fresh_task(id, t.name@, parent_id));
        }
        let parent_idx = self.find(parent_id);
        self.tasks.push(t);
        proof {
            assert(tasks_view(*self) =~= ts.push(fresh_task(id, t.name@, parent_id)));
        }
        match parent_idx {
            Some(p) => {
                let ghost mid = tasks_view(*self);
                let mut parent = self.tasks.remove(p);
                parent.children.push(id);
                self.tasks.insert(p, parent);
                proof {
                    assert(tasks_view(*self) =~= mid.update(
                        p as int,
                        TcbV { children: ts[p as int].children.push(id), ..ts[p as int] },
                    ));
                    assert(tasks_view(*self) =~= task_create_m(ts, id, t.name@, parent_id));
                }
            },
            None => {
                proof {
                    assert(tasks_view(*self) =~= task_create_m(ts, id, t.name@, parent_id));
                }
            },
        }
        self.next_id = id + 1;
        id
    }

    /// Reads a copy of the task with `id`.
    pub fn get(&self, id: u64) -> (r: Result<TCB, Error>)
        ensures
            match tfind_from(tasks_view(*self), id, 0) {
                Some(i) => r is Ok && tcb_view(r->Ok_0) == tasks_view(*self)[i],
                None => r == Result::<TCB, Error>::Err(Error::TaskNotExists(id)),
            },
    {
        match self.find(id) {
            Some(i) => {
                let t = &self.tasks[i];
                let mut children: Vec<u64> = Vec::new();
                let mut k: usize = 0;
                while k < t.children.len()
                    invariant
                        k <= t.children@.len(),
                        children@ =~= t.children@.take(k as int),
                    decreases t.children@.len() - k,
                {
                    children.push(t.children[k]);
                    k = k + 1;
                }
                proof {
                    assert(children@ =~= t.children@);
                }
                Ok(TCB {
                    id: t.id,
                    name: t.name.clone(),
                    progress: t.progress.clone(),
                    current_work: t.current_work.clone(),
                    parent: t.parent,
                    children,
                })
            },
            None => Err(Error::TaskNotExists(id)),
        }
    }

    /// Updates one attribute of the task with `id`.
    pub fn modify(&mut self, id: u64, attr: TaskAttr) -> (r: Result<(), Error>)
        ensures
            match tfind_from(tasks_view(*old(self)), id, 0) {
                Some(i) => r is Ok && tasks_view(*final(self)) == tasks_view(*old(self)).update(
                    i,
                    task_modify_node(tasks_view(*old(self))[i], attr),
                ) && final(self).next_id == old(self).next_id,
                None => r == Result::<(), Error>::Err(Error::TaskNotExists(id)) && *final(self)
                    == *old(self),
            },
    {
        let ghost ts = tasks_view(*self);
        match self.find(id) {
            Some(i) => {
                let mut t = self.tasks.remove(i);
                match attr {
                    TaskAttr::Name(v) => {
                        t.name = v;
                    },
                    TaskAttr::Progress(v) => {
                        t.progress = v;
                    },
                    TaskAttr::CurrentWork(v) => {
                        t.current_work = v;
                    },
                }
                self.tasks.insert(i, t);
                proof {
                    assert(tasks_view(*self) =~= ts.update(
                        i as int,
                        task_modify_node(ts[i as int], attr),
                    ));
                }
                Ok(())
            },
            None => Err(Error::TaskNotExists(id)),
        }
    }

    /// Removes the task with `id`, unlinking it from its parent.
    pub fn remove(&mut self, id: u64) -> (r: Result<(), Error>)
        ensures
            match tfind_from(tasks_view(*old(self)), id, 0) {
                Some(i) => r is Ok && tasks_view(*final(self)) == task_remove_m(
                    tasks_view(*old(self)),
                    i,
                ) && final(self).next_id == old(self).next_id,
                None => r == Result::<(), Error>::Err(Error::TaskNotExists(id)) && *final(self)
                    == *old(self),
            },
    {
        let ghost ts = tasks_view(*self);
        match self.find(id) {
            Some(i) => {
                let removed = self.tasks.remove(i);
                let ghost without = tasks_view(*self);
                proof {
                    assert(without =~= ts.remove(i as int));
                }
                let pidx = self.find(removed.parent);
                match pidx {
                    Some(p) => {
                        let mut parent = self.tasks.remove(p);
                        let ghost cs = parent.children@;
                        let cidx = find_id(&parent.children, removed.id);
                        match cidx {
                            Some(c) => {
                                parent.children.remove(c);
                                proof {
                                    assert(parent.children@ =~= cs.remove(c as int));
                                }
                            },
                            None => {
                            },
                        }
                        self.tasks.insert(p, parent);
                        proof {
                            assert(tasks_view(*self) =~= task_remove_m(ts, i as int));
                        }
                    },
                    None => {
                        proof {
                            assert(tasks_view(*self) =~= task_remove_m(ts, i as int));
                        }
                    },
                }
                Ok(())
            },
            None => Err(Error::TaskNotExists(id)),
        }
    }

    /// A copy of every task, in creation order.
    pub fn get_all(&self) -> (r: Vec<TCB>)
        ensures
            Seq::new(r@.len(), |i: int| tcb_view(r@[i])) == tasks_view(*self),
        decreases 0int,
    {
        let mut out: Vec<TCB> = Vec::new();
        let mut i: usize = 0;
        while i < self.tasks.len()
            invariant
                i <= self.tasks@.len(),
                out@.len() == i,
                forall|j: int| 0 <= j < i ==> tcb_view(out@[j]) == tcb_view(self.tasks@[j]),
            decreases self.tasks@.len() - i,
        {
            let t = &self.tasks[i];
            let mut children: Vec<u64> = Vec::new();
            let mut k: usize = 0;
            while k < t.children.len()
                invariant
                    k <= t.children@.len(),
                    children@ =~= t.children@.take(k as int),
                decreases t.children@.len() - k,
            {
                children.push(t.children[k]);
                k = k + 1;
            }
            proof {
                assert(children@ =~= t.children@);
            }
            let copy = TCB {
                id: t.id,
                name: t.name.clone(),
                progress: t.progress.clone(),
                current_work: t.current_work.clone(),
                parent: t.parent,
                children,
            };
            out.push(copy);
            i = i + 1;
        }
        proof {
            assert(Seq::new(out@.len(), |j: int| tcb_view(out@[j])) =~= tasks_view(*self));
        }
        out
    }
}

/// Finds the first index of `x` in an id list.
fn find_id(ids: &Vec<u64>, x: u64) -> (r: Option<usize>)
    ensures
        match r {
            Some(i) => i < ids@.len() && idfind_from(ids@, x, 0) == Some(i as int),
            None => idfind_from(ids@, x, 0) is None,
        },
{
    let mut i: usize = 0;
    while i < ids.len()
        invariant
            i <= ids@.len(),
            idfind_from(ids@, x, 0) == idfind_from(ids@, x, i as int),
        decreases ids@.len() - i,
    {
        if ids[i] == x {
            return Some(i);
        }
        i = i + 1;
    }
    None
}

} // verus!
