//! Which discovered BLE devices are mesh peers.
use vstd::prelude::*;

verus! {

/// Whether `needle` occurs in `hay` as a contiguous run.
pub open spec fn contains_text(hay: Seq<char>, needle: Seq<char>) -> bool {
    exists|i: int| 0 <= i && i + needle.len() <= hay.len() && #[trigger] hay.subrange(i, i + needle.len()) == needle
}

/// The text that a mesh peer's advertised name contains.
pub open spec fn mesh_peer_tag() -> Seq<char> {
    "ArgusMesh"@
}

/// Whether a device advertising `name` is a mesh peer: its name contains
/// "ArgusMesh".
pub fn is_mesh_peer_name(name: &str) -> (r: bool)
    ensures
        r == contains_text(name@, mesh_peer_tag()),
{
    let tag: [char; 9] = ['A', 'r', 'g', 'u', 's', 'M', 'e', 's', 'h'];
    proof {
        reveal_strlit("ArgusMesh");
        assert(tag@ =~= mesh_peer_tag());
    }
    let n = name.unicode_len();
    if n < 9 {
        proof {
            assert forall|i: int| 0 <= i && i + 9 <= name@.len() implies
                #[trigger] name@.subrange(i, i + 9) != mesh_peer_tag() by {}
        }
        return false;
    }
    let last = n - 9;
    let mut i: usize = 0;
    while i <= last
        invariant
            n == name@.len(),
            9 <= n,
            last == n - 9,
            i <= last + 1,
            tag@ == mesh_peer_tag(),
            forall|k: int| 0 <= k < i ==> #[trigger] name@.subrange(k, k + 9) != mesh_peer_tag(),
        decreases n - i,
    {
        let mut j: usize = 0;
        let mut same = true;
        while j < 9
            invariant
                n == name@.len(),
                i + 9 <= n,
                0 <= j <= 9,
                tag@ == mesh_peer_tag(),
                same <==> forall|t: int| 0 <= t < j ==> name@[i + t] == tag@[t],
            decreases 9 - j,
        {
            if name.get_char(i + j) != tag[j] {
                same = false;
            }
            j = j + 1;
        }
        if same {
            proof {
                assert(name@.subrange(i as int, i + 9) =~= mesh_peer_tag());
            }
            return true;
        }
        proof {
            let k = choose|t: int| 0 <= t < 9 && name@[i + t] != tag@[t];
            assert(name@.subrange(i as int, i + 9)[k] != mesh_peer_tag()[k]);
        }
        i = i + 1;
    }
    false
}

} // verus!
