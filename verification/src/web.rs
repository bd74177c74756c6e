//! What a web page asks of the converter: which domain a conversion belongs to,
//! and a case as parallel columns.

use vstd::prelude::*;

use crate::math::Bits;
use crate::text::cat5;

verus! {

// ---- domains ---------------------------------------------------------------

/// The two domains. They do not interconvert.
#[derive(Clone, Copy, PartialEq, Eq, Structural, Debug)]
pub enum Domain {
    Transmission,
    Distribution,
}

/// Why a conversion between the domains is refused.
pub open spec fn mixed_message(from: Seq<char>, to: Seq<char>) -> Seq<char> {
    "Cannot convert between transmission and distribution formats ("@ + from + " \u{2192} "@ + to
        + ") \u{2014} they are separate domains."@
}

/// The domain of a conversion, given that of each format; refused where they
/// differ.
pub fn domain_of(from: &str, from_domain: Domain, to: &str, to_domain: Domain) -> (r:
    std::result::Result<Domain, String>)
    ensures
        match r {
            Ok(d) => from_domain == to_domain && d == from_domain,
            Err(e) => from_domain != to_domain && e@ == mixed_message(from@, to@),
        },
{
    if from_domain != to_domain {
        Err(
            cat5(
                "Cannot convert between transmission and distribution formats (",
                from,
                " \u{2192} ",
                to,
                ") \u{2014} they are separate domains.",
            ),
        )
    } else {
        Ok(from_domain)
    }
}

// ---- tables ----------------------------------------------------------------

/// A branch of a transmission case.
pub struct Branch {
    pub from: usize,
    pub to: usize,
    pub r: Bits,
    pub x: Bits,
    pub b: Bits,
    pub tap: Bits,
    pub shift: Bits,
    pub in_service: bool,
}

/// The branches as parallel columns, in source order and with values as they
/// are.
pub struct BranchTable {
    pub from: Vec<i64>,
    pub to: Vec<i64>,
    pub r: Vec<Bits>,
    pub x: Vec<Bits>,
    pub b: Vec<Bits>,
    pub tap: Vec<Bits>,
    pub shift: Vec<Bits>,
    pub in_service: Vec<u8>,
}

/// A bus number; one that no signed integer holds is minus one.
pub open spec fn bus_number_of(id: usize) -> i64 {
    if id <= i64::MAX {
        id as i64
    } else {
        -1i64
    }
}

fn bus_number(id: usize) -> (r: i64)
    ensures
        r == bus_number_of(id),
{
    if (id as u64) <= i64::MAX as u64 {
        id as i64
    } else {
        -1
    }
}

/// The numbers of a list of buses.
pub fn bus_ids(ids: &Vec<usize>) -> (r: Vec<i64>)
    ensures
        r@ == Seq::new(ids@.len(), |i: int| bus_number_of(ids@[i])),
{
    let mut r: Vec<i64> = Vec::new();
    let mut i: usize = 0;
    while i < ids.len()
        invariant
            i <= ids.len(),
            r.len() == i,
            forall|k: int| 0 <= k < i ==> (#[trigger] r@[k]) == bus_number_of(ids@[k]),
        decreases ids.len() - i,
    {
        r.push(bus_number(ids[i]));
        i = i + 1;
    }
    assert(r@ =~= Seq::new(ids@.len(), |i: int| bus_number_of(ids@[i])));
    r
}

impl BranchTable {
    /// Whether row `i` of the columns is a branch.
    pub open spec fn holds(&self, i: int, b: Branch) -> bool {
        &&& self.from@[i] == bus_number_of(b.from)
        &&& self.to@[i] == bus_number_of(b.to)
        &&& self.r@[i] == b.r
        &&& self.x@[i] == b.x
        &&& self.b@[i] == b.b
        &&& self.tap@[i] == b.tap
        &&& self.shift@[i] == b.shift
        &&& self.in_service@[i] == if b.in_service {
            1u8
        } else {
            0u8
        }
    }

    /// Every column has `n` rows.
    pub open spec fn has_rows(&self, n: nat) -> bool {
        &&& self.from@.len() == n
        &&& self.to@.len() == n
        &&& self.r@.len() == n
        &&& self.x@.len() == n
        &&& self.b@.len() == n
        &&& self.tap@.len() == n
        &&& self.shift@.len() == n
        &&& self.in_service@.len() == n
    }
}

/// The columns of a list of branches: one row for each, in order.
pub fn branch_table(branches: &Vec<Branch>) -> (r: BranchTable)
    ensures
        r.has_rows(branches@.len()),
        forall|i: int| 0 <= i < branches@.len() ==> r.holds(i, #[trigger] branches@[i]),
{
    let mut t = BranchTable {
        from: Vec::new(),
        to: Vec::new(),
        r: Vec::new(),
        x: Vec::new(),
        b: Vec::new(),
        tap: Vec::new(),
        shift: Vec::new(),
        in_service: Vec::new(),
    };
    let mut i: usize = 0;
    while i < branches.len()
        invariant
            i <= branches.len(),
            t.has_rows(i as nat),
            forall|k: int| 0 <= k < i ==> t.holds(k, #[trigger] branches@[k]),
        decreases branches.len() - i,
    {
        let b = &branches[i];
        t.from.push(bus_number(b.from));
        t.to.push(bus_number(b.to));
        t.r.push(b.r);
        t.x.push(b.x);
        t.b.push(b.b);
        t.tap.push(b.tap);
        t.shift.push(b.shift);
        t.in_service.push(
            if b.in_service {
                1
            } else {
                0
            },
        );
        i = i + 1;
    }
    t
}

} // verus!
