//! A bounded last-in first-out history.
use vstd::prelude::*;

verus! {

/// The last `N` items pushed, most recent on top; older items fall off.
pub struct LiFo<T, const N: usize> {
    stack: Vec<Option<T>>,
    last_index: usize,
    items: Ghost<Seq<T>>,
}

/// What remains after pushing `x` onto `s` with room for `n`.
pub open spec fn pushed<T>(s: Seq<T>, x: T, n: nat) -> Seq<T> {
    if s.len() < n {
        s.push(x)
    } else {
        s.drop_first().push(x)
    }
}

impl<T, const N: usize> LiFo<T, N> {
    /// The items held, oldest first.
    pub closed spec fn view(&self) -> Seq<T> {
        self.items@
    }

    /// The slot that holds the item `k` places below the top.
    pub closed spec fn slot(&self, k: int) -> int {
        (self.last_index + N - k) % (N as int)
    }

    pub closed spec fn wf(&self) -> bool {
        &&& N > 0
        &&& self.stack@.len() == N
        &&& self.last_index < N
        &&& self.items@.len() <= N
        &&& forall|k: int|
            0 <= k < self.items@.len() ==> self.stack@[#[trigger] self.slot(k)] == Some(
                self.items@[self.items@.len() - 1 - k],
            )
        &&& self.items@.len() < N ==> self.stack@[self.slot(self.items@.len() as int)] is None
    }

    pub fn new() -> (r: Self)
        requires
            N > 0,
        ensures
            r.wf(),
            r.view().len() == 0,
    {
        let mut stack: Vec<Option<T>> = Vec::new();
        let mut i: usize = 0;
        while i < N
            invariant
                i <= N,
                stack@.len() == i,
                forall|k: int| 0 <= k < i ==> stack@[k] is None,
            decreases N - i,
        {
            stack.push(None);
            i = i + 1;
        }
        let r = LiFo { stack, last_index: N - 1, items: Ghost(Seq::empty()) };
        assert(r.slot(0) == (N - 1) as int) by (nonlinear_arith)
            requires
                r.slot(0) == (N - 1 + N - 0) % (N as int),
                N > 0,
        ;
        r
    }

    pub fn push(&mut self, item: T)
        requires
            old(self).wf(),
        ensures
            final(self).wf(),
            final(self).view() == pushed(old(self).view(), item, N as nat),
    {
        let ghost before = self.items@;
        let ghost old_last = self.last_index;
        let ghost old_stack = self.stack@;
        let next = if self.last_index + 1 == N { 0 } else { self.last_index + 1 };
        self.stack.set(next, Some(item));
        self.last_index = next;
        self.items = Ghost(pushed(before, item, N as nat));
        let ghost after = self.items@;
        proof {
            assert forall|k: int| 0 <= k < after.len() implies self.stack@[#[trigger] self.slot(k)]
                == Some(after[after.len() - 1 - k]) by {
                if k == 0 {
                    lemma_slot_zero(next as int, N as int);
                    assert(self.slot(0) == next as int);
                } else {
                    lemma_slot_step(old_last as int, next as int, N as int, k);
                    assert(self.slot(k) == old(self).slot(k - 1));
                    assert(old(self).stack@[old(self).slot(k - 1)] == Some(
                        before[before.len() - 1 - (k - 1)],
                    ));
                    assert(self.slot(k) != next as int) by {
                        lemma_slot_distinct(next as int, N as int, k);
                    }
                    if before.len() < N {
                        assert(after[after.len() - 1 - k] == before[before.len() - 1 - (k - 1)]);
                    } else {
                        assert(after[after.len() - 1 - k] == before[before.len() - 1 - (k - 1)]);
                    }
                }
            }
            if after.len() < N {
                let m = after.len() as int;
                lemma_slot_step(old_last as int, next as int, N as int, m);
                assert(self.slot(m) == old(self).slot(m - 1));
                assert(self.slot(m) != next as int) by {
                    lemma_slot_distinct(next as int, N as int, m);
                }
            }
        }
    }

    pub fn pop(&mut self) -> (r: Option<T>)
        requires
            old(self).wf(),
        ensures
            final(self).wf(),
            old(self).view().len() == 0 ==> r is None && final(self).view() == old(self).view(),
            old(self).view().len() > 0 ==> r == Some(old(self).view().last()) && final(self).view()
                == old(self).view().drop_last(),
    {
        let ghost before = self.items@;
        let ghost old_last = self.last_index;
        let ghost old_stack = self.stack@;
        let item = self.stack.remove(self.last_index);
        self.stack.insert(self.last_index, None);
        assert(self.stack@ =~= old_stack.update(old_last as int, None));
        assert(item == old_stack[old_last as int]);
        match item {
            Some(x) => {
                let prev = if self.last_index == 0 { N - 1 } else { self.last_index - 1 };
                self.last_index = prev;
                self.items = Ghost(before.drop_last());
                proof {
                    assert(before.len() > 0) by {
                        lemma_slot_zero(old_last as int, N as int);
                        if before.len() == 0 {
                            assert(old(self).stack@[old(self).slot(0)] is None);
                        }
                    }
                    lemma_slot_zero(old_last as int, N as int);
                    let after = self.items@;
                    assert forall|k: int| 0 <= k < after.len() implies self.stack@[#[trigger] self.slot(
                        k,
                    )] == Some(after[after.len() - 1 - k]) by {
                        lemma_slot_step(prev as int, old_last as int, N as int, k + 1);
                        assert(self.slot(k) == old(self).slot(k + 1));
                        assert(old(self).stack@[old(self).slot(k + 1)] == Some(
                            before[before.len() - 1 - (k + 1)],
                        ));
                        assert(self.slot(k) != old_last as int) by {
                            lemma_slot_distinct(old_last as int, N as int, k + 1);
                        }
                    }
                    let m = after.len() as int;
                    lemma_slot_step(prev as int, old_last as int, N as int, m + 1);
                    assert(self.slot(m) == old(self).slot(m + 1));
                    if m + 1 < N {
                        assert(self.slot(m) != old_last as int) by {
                            lemma_slot_distinct(old_last as int, N as int, m + 1);
                        }
                    } else {
                        assert(self.slot(m) == old_last as int) by (nonlinear_arith)
                            requires
                                self.slot(m) == (prev + N - m) % (N as int),
                                m + 1 == N,
                                old_last < N,
                                prev == (if old_last == 0 { N - 1 } else { old_last - 1 }),
                        ;
                    }
                }
                Some(x)
            },
            None => {
                proof {
                    lemma_slot_zero(old_last as int, N as int);
                    if before.len() > 0 {
                        assert(old(self).stack@[old(self).slot(0)] == Some(before[before.len() - 1]));
                    }
                }
                assert(self.stack@ =~= old_stack);
                None
            },
        }
    }

    pub fn can_pop(&self) -> (r: bool)
        requires
            self.wf(),
        ensures
            r == (self.view().len() > 0),
    {
        proof {
            lemma_slot_zero(self.last_index as int, N as int);
            if self.items@.len() > 0 {
                assert(self.stack@[self.slot(0)] == Some(self.items@[self.items@.len() - 1]));
            }
        }
        self.stack[self.last_index].is_some()
    }
}

proof fn lemma_slot_zero(last: int, n: int)
    requires
        0 <= last < n,
    ensures
        (last + n - 0) % n == last,
{
    assert((last + n) % n == last) by (nonlinear_arith)
        requires
            0 <= last < n,
    ;
}

/// Moving the top one slot on shifts every depth by one.
proof fn lemma_slot_step(last: int, next: int, n: int, k: int)
    requires
        0 <= last < n,
        next == (if last + 1 == n { 0 } else { last + 1 }),
        1 <= k <= n,
    ensures
        (next + n - k) % n == (last + n - (k - 1)) % n,
{
    assert((next + n - k) % n == (last + n - (k - 1)) % n) by (nonlinear_arith)
        requires
            0 <= last < n,
            next == (if last + 1 == n { 0 } else { last + 1 }),
            1 <= k <= n,
    ;
}

/// Depths 1 to n-1 below a slot are other slots.
proof fn lemma_slot_distinct(top: int, n: int, k: int)
    requires
        0 <= top < n,
        1 <= k < n,
    ensures
        (top + n - k) % n != top,
{
    assert((top + n - k) % n != top) by (nonlinear_arith)
        requires
            0 <= top < n,
            1 <= k < n,
    ;
}

} // verus!
