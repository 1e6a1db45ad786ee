//! The backends this build carries.
use crate::engine::{BackendId, backend_name};
use vstd::prelude::*;

verus! {

/// Every concrete backend, in the order `Auto` tries them.
pub const ALL: [BackendId; 3] = [BackendId::Cuda, BackendId::Mlx, BackendId::Cpu];

/// Whether this build carries the backend. The CPU reference backend is part of every build
/// of this crate's application; CUDA and MLX need toolkits that are not part of it.
pub open spec fn carried(id: BackendId) -> bool {
    match id {
        BackendId::Cuda => false,
        BackendId::Mlx => false,
        BackendId::Cpu => true,
        BackendId::Auto => true,
    }
}

pub fn compiled(id: BackendId) -> (r: bool)
    ensures
        r == carried(id),
{
    match id {
        BackendId::Cuda => false,
        BackendId::Mlx => false,
        BackendId::Cpu => true,
        BackendId::Auto => true,
    }
}

/// The names of the carried backends, in `ALL` order.
pub open spec fn available_spec() -> Seq<Seq<char>> {
    ALL@.filter(|id: BackendId| carried(id)).map_values(|id: BackendId| backend_name(id))
}

pub fn available() -> (r: Vec<&'static str>)
    ensures
        r@.map_values(|s: &str| s@) == available_spec(),
{
    let all = ALL;
    let mut out: Vec<&'static str> = Vec::new();
    let mut i: usize = 0;
    while i < 3
        invariant
            i <= 3,
            all@ == ALL@,
            out@.map_values(|s: &str| s@) == all@.subrange(0, i as int).filter(|id: BackendId| carried(id)).map_values(
                |id: BackendId| backend_name(id),
            ),
        decreases 3 - i,
    {
        let ghost before = out@;
        let ghost pre = all@.subrange(0, i as int);
        proof {
            assert(all@.subrange(0, i + 1).drop_last() == pre);
            reveal_with_fuel(Seq::filter, 1);
        }
        if compiled(all[i]) {
            out.push(all[i].name());
            assert(out@.map_values(|s: &str| s@) =~= before.map_values(|s: &str| s@).push(backend_name(all@[i as int])));
        } else {
            assert(out@ == before);
        }
        i = i + 1;
    }
    assert(all@.subrange(0, 3) == ALL@);
    out
}

/// The first carried backend of `ALL`.
pub open spec fn auto_spec() -> BackendId {
    if carried(ALL@[0]) {
        ALL@[0]
    } else if carried(ALL@[1]) {
        ALL@[1]
    } else {
        ALL@[2]
    }
}

/// The backends this build carries are the CPU backend alone.
proof fn lemma_available()
    ensures
        available_spec() == seq![backend_name(BackendId::Cpu)],
{
    reveal_with_fuel(Seq::filter, 4);
    let f = ALL@.filter(|id: BackendId| carried(id));
    assert(ALL@ == seq![BackendId::Cuda, BackendId::Mlx, BackendId::Cpu]);
    assert(ALL@.drop_last() == seq![BackendId::Cuda, BackendId::Mlx]);
    assert(ALL@.drop_last().drop_last() == seq![BackendId::Cuda]);
    assert(ALL@.drop_last().drop_last().drop_last() == Seq::<BackendId>::empty());
    assert(f =~= seq![BackendId::Cpu]);
    assert(f.map_values(|id: BackendId| backend_name(id)) =~= seq![backend_name(BackendId::Cpu)]);
}

/// The backend `Auto` stands for: the first one `available` names.
pub fn auto_id() -> (r: BackendId)
    ensures
        r == auto_spec(),
        carried(r),
        r != BackendId::Auto,
        available_spec().len() > 0 && available_spec()[0] == backend_name(r),
{
    proof {
        lemma_available();
    }
    let all = ALL;
    if compiled(all[0]) {
        all[0]
    } else if compiled(all[1]) {
        all[1]
    } else {
        all[2]
    }
}

/// The backend a request names: `Auto` stands for `auto_id`, any other is itself.
pub fn resolve_backend(requested: BackendId) -> (r: BackendId)
    ensures
        r == (if requested == BackendId::Auto {
            auto_spec()
        } else {
            requested
        }),
        r != BackendId::Auto,
{
    if requested == BackendId::Auto {
        auto_id()
    } else {
        requested
    }
}

/// Whether a tensor can take affine quantization with groups of `group`: a matrix whose
/// rows split into whole groups.
pub fn eligible(dims: &[usize], group: i32) -> (r: bool)
    ensures
        r == (dims@.len() == 2 && group > 0 && dims@[1] % (group as usize) == 0),
{
    dims.len() == 2 && group > 0 && dims[1] % group as usize == 0
}

/// The quantization group sizes on offer.
#[derive(Clone, Copy, Debug, PartialEq, Eq, Structural)]
pub enum GroupArg {
    G32,
    G64,
    G128,
}

impl GroupArg {
    /// The group size in elements.
    pub fn value(self) -> (r: i32)
        ensures
            r == (match self {
                GroupArg::G32 => 32i32,
                GroupArg::G64 => 64i32,
                GroupArg::G128 => 128i32,
            }),
    {
        match self {
            GroupArg::G32 => 32,
            GroupArg::G64 => 64,
            GroupArg::G128 => 128,
        }
    }
}

} // verus!
