//! The decisions of `waitpid`: which exited child is reaped from the
//! caller's zombie list, and when the caller returns, fails or waits.
//!
//! Exited children are queued on their parent's zombie list in exit order;
//! a wait for any child takes the oldest, a wait for one child takes its
//! entry.
use crate::consts::{neg, ECHILD, EINTR};
use vstd::prelude::*;

verus! {

/// `waitpid` option: return at once when no child has exited.
pub const WNOHANG: i32 = 1;

/// An exited child waiting to be reaped.
#[derive(Clone, Copy, PartialEq, Eq, Structural, Debug)]
pub struct Zombie {
    pub cageid: u64,
    pub exit_code: i32,
}

/// Which children a `waitpid` waits for.
#[derive(Clone, Copy, PartialEq, Eq, Structural, Debug)]
pub enum WaitpidChildSelector {
    /// Any child (a selector of zero or less).
    AnyChild,
    /// The child with this cage id.
    SpecificChild(i32),
}

/// One look at the zombie list.
#[derive(Clone, Copy, PartialEq, Eq, Structural, Debug)]
pub enum WaitpidStep {
    /// This exited child is reaped.
    Reaped(Zombie),
    /// The call returns this value now.
    Return(i32),
    /// Nothing to reap yet: yield (failing on a pending signal) and look
    /// again.
    Wait,
}

/// Reads the child selector: zero or less waits for any child.
pub fn sanitize_waitpid_child_selector(raw_child_id: i32) -> (r: WaitpidChildSelector)
    ensures
        r == (if raw_child_id <= 0 {
            WaitpidChildSelector::AnyChild
        } else {
            WaitpidChildSelector::SpecificChild(raw_child_id)
        }),
{
    if raw_child_id <= 0 {
        WaitpidChildSelector::AnyChild
    } else {
        WaitpidChildSelector::SpecificChild(raw_child_id)
    }
}

/// The first check of `waitpid`: `-ECHILD` when no exited child is queued
/// and no child is running.
pub fn waitpid_start(zombies: &Vec<Zombie>, child_num: u64) -> (r: Result<(), i32>)
    ensures
        r == (if zombies@.len() == 0 && child_num == 0 {
            Err(neg(ECHILD))
        } else {
            Ok(())
        }),
{
    if zombies.len() == 0 && child_num == 0 {
        return Err(-ECHILD);
    }
    Ok(())
}

/// Whether `i` is the first position of a zombie of cage `id`.
pub open spec fn first_of(zs: Seq<Zombie>, id: u64, i: int) -> bool {
    &&& 0 <= i < zs.len()
    &&& zs[i].cageid == id
    &&& forall|j: int| 0 <= j < i ==> zs[j].cageid != id
}

/// A wait for child `id` on zombie list `zs` (now `zs2`) gives `r`: the
/// first entry of the child is reaped; without one, the list is unchanged
/// and the call returns 0 under `WNOHANG` (`nohang`), and otherwise waits.
pub open spec fn reaped_first(
    zs: Seq<Zombie>,
    zs2: Seq<Zombie>,
    id: u64,
    nohang: bool,
    r: WaitpidStep,
) -> bool {
    ||| exists|i: int|
        #![trigger first_of(zs, id, i)]
        first_of(zs, id, i) && r == WaitpidStep::Reaped(zs[i]) && zs2 == zs.remove(i)
    ||| (forall|i: int| 0 <= i < zs.len() ==> zs[i].cageid != id) && zs2 == zs && r == (if nohang {
        WaitpidStep::Return(0)
    } else {
        WaitpidStep::Wait
    })
}

/// One look at the zombie list: a wait for any child reaps the oldest
/// entry, a wait for one child reaps its first entry. When there is nothing
/// to reap the call returns 0 under `WNOHANG`, and otherwise waits.
pub fn waitpid_take(zombies: &mut Vec<Zombie>, selector: WaitpidChildSelector, options: i32) -> (r:
    WaitpidStep)
    ensures
        match selector {
            WaitpidChildSelector::AnyChild => if old(zombies)@.len() > 0 {
                r == WaitpidStep::Reaped(old(zombies)@[0]) && final(zombies)@ == old(
                    zombies,
                )@.drop_first()
            } else if options & WNOHANG > 0 {
                r == WaitpidStep::Return(0) && final(zombies)@ == old(zombies)@
            } else {
                r == WaitpidStep::Wait && final(zombies)@ == old(zombies)@
            },
            WaitpidChildSelector::SpecificChild(id) => reaped_first(
                old(zombies)@,
                final(zombies)@,
                id as u64,
                options & WNOHANG > 0,
                r,
            ),
        },
{
    match selector {
        WaitpidChildSelector::AnyChild => {
            if zombies.len() > 0 {
                let z = zombies.remove(0);
                proof {
                    assert(old(zombies)@.drop_first() =~= old(zombies)@.remove(0));
                }
                WaitpidStep::Reaped(z)
            } else if options & WNOHANG > 0 {
                WaitpidStep::Return(0)
            } else {
                WaitpidStep::Wait
            }
        },
        WaitpidChildSelector::SpecificChild(id) => {
            let want = id as u64;
            let mut i: usize = 0;
            while i < zombies.len()
                invariant
                    zombies@ == old(zombies)@,
                    want == id as u64,
                    selector == WaitpidChildSelector::SpecificChild(id),
                    i <= zombies@.len(),
                    forall|j: int| 0 <= j < i ==> zombies@[j].cageid != want,
                decreases zombies@.len() - i,
            {
                if zombies[i].cageid == want {
                    proof {
                        assert(first_of(old(zombies)@, id as u64, i as int));
                    }
                    let z = zombies.remove(i);
                    return WaitpidStep::Reaped(z);
                }
                i = i + 1;
            }
            if options & WNOHANG > 0 {
                WaitpidStep::Return(0)
            } else {
                WaitpidStep::Wait
            }
        },
    }
}

/// For a wait on one child that has not exited: `-ECHILD` unless the child
/// exists (`child_parent` is its parent) and is a child of `cageid`.
pub fn waitpid_check_child(child_parent: Option<u64>, cageid: u64) -> (r: Result<(), i32>)
    ensures
        r == (match child_parent {
            Some(p) => if p == cageid {
                Ok(())
            } else {
                Err(neg(ECHILD))
            },
            None => Err(neg(ECHILD)),
        }),
{
    match child_parent {
        Some(p) => if p == cageid {
            Ok(())
        } else {
            Err(-ECHILD)
        },
        None => Err(-ECHILD),
    }
}

/// The first look of `waitpid` in cage `cageid`, given its zombie list,
/// its number of running children, and, for a wait on one child, that
/// child's parent (`None` when no such cage exists): `-ECHILD` when there
/// is nothing to wait for; otherwise a queued child is reaped as
/// `waitpid_take` says, and when none is, a wait on one child that is not
/// a child of the caller is `-ECHILD`, `WNOHANG` returns 0, and otherwise
/// the caller waits.
pub fn waitpid_first_look(
    zombies: &mut Vec<Zombie>,
    child_num: u64,
    selector: WaitpidChildSelector,
    options: i32,
    child_parent: Option<u64>,
    cageid: u64,
) -> (r: WaitpidStep)
    ensures
        old(zombies)@.len() == 0 && child_num == 0 ==> r == WaitpidStep::Return(neg(ECHILD))
            && final(zombies)@ == old(zombies)@,
        !(old(zombies)@.len() == 0 && child_num == 0) ==> match selector {
            WaitpidChildSelector::AnyChild => if old(zombies)@.len() > 0 {
                r == WaitpidStep::Reaped(old(zombies)@[0]) && final(zombies)@ == old(
                    zombies,
                )@.drop_first()
            } else {
                final(zombies)@ == old(zombies)@ && r == (if options & WNOHANG > 0 {
                    WaitpidStep::Return(0)
                } else {
                    WaitpidStep::Wait
                })
            },
            WaitpidChildSelector::SpecificChild(id) => {
                ||| exists|i: int|
                    #![trigger first_of(old(zombies)@, id as u64, i)]
                    first_of(old(zombies)@, id as u64, i) && r == WaitpidStep::Reaped(
                        old(zombies)@[i],
                    ) && final(zombies)@ == old(zombies)@.remove(i)
                ||| (forall|i: int|
                    0 <= i < old(zombies)@.len() ==> old(zombies)@[i].cageid != id as u64)
                    && final(zombies)@ == old(zombies)@ && r == (if child_parent != Some(cageid) {
                    WaitpidStep::Return(neg(ECHILD))
                } else if options & WNOHANG > 0 {
                    WaitpidStep::Return(0)
                } else {
                    WaitpidStep::Wait
                })
            },
        },
{
    if let Err(e) = waitpid_start(zombies, child_num) {
        return WaitpidStep::Return(e);
    }
    match selector {
        WaitpidChildSelector::AnyChild => waitpid_take(zombies, selector, options),
        WaitpidChildSelector::SpecificChild(_) => {
            let step = waitpid_take(zombies, selector, 0);
            match step {
                WaitpidStep::Reaped(_) => step,
                _ => {
                    if let Err(e) = waitpid_check_child(child_parent, cageid) {
                        return WaitpidStep::Return(e);
                    }
                    if options & WNOHANG > 0 {
                        WaitpidStep::Return(0)
                    } else {
                        WaitpidStep::Wait
                    }
                },
            }
        },
    }
}

/// A look after the caller yielded while waiting (so `WNOHANG` is not
/// set): a queued child is reaped as `waitpid_take` says; otherwise a
/// pending signal ends the wait with `-EINTR`, and without one the caller
/// waits again.
pub fn waitpid_after_yield(
    zombies: &mut Vec<Zombie>,
    selector: WaitpidChildSelector,
    signal_pending: bool,
) -> (r: WaitpidStep)
    ensures
        match selector {
            WaitpidChildSelector::AnyChild => if old(zombies)@.len() > 0 {
                r == WaitpidStep::Reaped(old(zombies)@[0]) && final(zombies)@ == old(
                    zombies,
                )@.drop_first()
            } else {
                final(zombies)@ == old(zombies)@ && r == (if signal_pending {
                    WaitpidStep::Return(neg(EINTR))
                } else {
                    WaitpidStep::Wait
                })
            },
            WaitpidChildSelector::SpecificChild(id) => {
                ||| exists|i: int|
                    #![trigger first_of(old(zombies)@, id as u64, i)]
                    first_of(old(zombies)@, id as u64, i) && r == WaitpidStep::Reaped(
                        old(zombies)@[i],
                    ) && final(zombies)@ == old(zombies)@.remove(i)
                ||| (forall|i: int|
                    0 <= i < old(zombies)@.len() ==> old(zombies)@[i].cageid != id as u64)
                    && final(zombies)@ == old(zombies)@ && r == (if signal_pending {
                    WaitpidStep::Return(neg(EINTR))
                } else {
                    WaitpidStep::Wait
                })
            },
        },
{
    let step = waitpid_take(zombies, selector, 0);
    match step {
        WaitpidStep::Reaped(_) => step,
        _ => if signal_pending {
            WaitpidStep::Return(-EINTR)
        } else {
            WaitpidStep::Wait
        },
    }
}

} // verus!
