//! What the command line asks for, where it takes deciding.

use vstd::prelude::*;

verus! {

/// One of the numbers of workers that were asked for; zero asks for all
/// cores.
pub open spec fn workers_or_cores(asked: usize, cores: usize) -> usize {
    if asked == 0 {
        cores
    } else {
        asked
    }
}

/// The numbers of workers for the first and for the second snapshot. One
/// number asked for serves both snapshots; of more, the first two serve
/// one each; with none asked for, both get all cores.
pub open spec fn workers_for(asked: Option<Seq<usize>>, cores: usize) -> (usize, usize) {
    match asked {
        Some(ws) => if ws.len() == 1 {
            (workers_or_cores(ws[0], cores), workers_or_cores(ws[0], cores))
        } else {
            (workers_or_cores(ws[0], cores), workers_or_cores(ws[1], cores))
        },
        None => (cores, cores),
    }
}

/// The numbers of workers for both snapshots, from what was asked for and
/// the number of cores of the machine. What was asked for holds at least
/// one number.
pub fn num_workers(ws: Option<Vec<usize>>, cores: usize) -> (r: (usize, usize))
    requires
        ws.is_some() ==> ws.unwrap()@.len() >= 1,
    ensures
        r == workers_for(
            match ws {
                Some(v) => Some(v@),
                None => None,
            },
            cores,
        ),
{
    match ws {
        Some(ws) => {
            let (mut w1, mut w2) = if ws.len() == 1 {
                (ws[0], ws[0])
            } else {
                (ws[0], ws[1])
            };
            if w1 == 0 {
                w1 = cores;
            }
            if w2 == 0 {
                w2 = cores;
            }
            (w1, w2)
        },
        None => (cores, cores),
    }
}

} // verus!
