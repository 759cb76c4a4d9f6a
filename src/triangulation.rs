//! The triangulation table: for each of the 256 corner configurations, the
//! cube edges (or corners) that its triangles pass through.

use crate::error::ConfigError;
use std::collections::HashMap;
use vstd::prelude::*;

verus! {

broadcast use vstd::std_specs::hash::group_hash_axioms;

/// Number of corner configurations of a cube.
pub const CONFIGURATIONS: usize = 256;

/// Which table a mesh is built with.
#[derive(Clone, Copy, Debug, PartialEq, Eq, Hash, Structural)]
pub enum TriangulationMethod {
    BASIC,
}

impl TriangulationMethod {
    /// Where the table of this method is kept, relative to the assets root.
    pub fn asset_path(&self) -> (r: String)
        ensures
            *self == TriangulationMethod::BASIC ==> r@ == "triangulation/methods/basic.ron"@,
    {
        match self {
            TriangulationMethod::BASIC => String::from_str("triangulation/methods/basic.ron"),
        }
    }
}

/// How many cube corners or edges a triangle vertex may refer to.
pub open spec fn reference_limit(connect_points: bool) -> int {
    if connect_points {
        8
    } else {
        12
    }
}

/// A table entry: whole triangles, each vertex a valid reference.
pub open spec fn entry_ok(entry: Seq<u8>, connect_points: bool) -> bool {
    &&& entry.len() % 3 == 0
    &&& forall|j: int| 0 <= j < entry.len() ==> (#[trigger] entry[j] as int) < reference_limit(connect_points)
}

/// The entry of configuration `k` in a decoded table: missing keys stand for
/// configurations without triangles.
pub open spec fn decoded_entry(table: Map<u8, Vec<u8>>, k: int) -> Seq<u8> {
    if table.contains_key(k as u8) {
        table[k as u8]@
    } else {
        Seq::empty()
    }
}

/// Every entry is well formed, and a cube whose corners all lie on one side
/// of the surface (configuration 0 or 255) holds no triangle.
pub open spec fn table_ok(table: Map<u8, Vec<u8>>, connect_points: bool) -> bool {
    &&& forall|k: int| 0 <= k < 256 ==> entry_ok(#[trigger] decoded_entry(table, k), connect_points)
    &&& decoded_entry(table, 0).len() == 0
    &&& decoded_entry(table, 255).len() == 0
}

/// A checked triangulation table, indexed by corner configuration.
pub struct Triangulation {
    table: Vec<Vec<u8>>,
    connect_points: bool,
}

impl Triangulation {
    /// The vertex references of configuration `k`.
    pub closed spec fn entry(&self, k: int) -> Seq<u8> {
        self.table@[k]@
    }

    /// Whether vertices are cube corners rather than points on cube edges.
    pub closed spec fn connects_points(&self) -> bool {
        self.connect_points
    }

    pub closed spec fn entry_count(&self) -> nat {
        self.table@.len()
    }

    pub open spec fn wf(&self) -> bool {
        &&& self.entry_count() == 256
        &&& forall|k: int| 0 <= k < 256 ==> entry_ok(#[trigger] self.entry(k), self.connects_points())
        &&& self.entry(0).len() == 0
        &&& self.entry(255).len() == 0
    }

    /// The vertex references of configuration `k`.
    pub fn entry_of(&self, k: u8) -> (r: &Vec<u8>)
        requires
            self.wf(),
        ensures
            r@ == self.entry(k as int),
    {
        &self.table[k as usize]
    }

    /// Whether vertices are cube corners rather than points on cube edges.
    pub fn connect_points(&self) -> (r: bool)
        ensures
            r == self.connects_points(),
    {
        self.connect_points
    }
}

/// Checks that `entry` is a well-formed table entry.
fn check_entry(entry: &Vec<u8>, connect_points: bool) -> (r: bool)
    ensures
        r == entry_ok(entry@, connect_points),
{
    if entry.len() % 3 != 0 {
        return false;
    }
    let limit: u8 = if connect_points { 8 } else { 12 };
    let mut j: usize = 0;
    while j < entry.len()
        invariant
            j <= entry@.len(),
            limit as int == reference_limit(connect_points),
            forall|i: int| 0 <= i < j ==> (#[trigger] entry@[i] as int) < limit,
        decreases entry@.len() - j,
    {
        if entry[j] >= limit {
            return false;
        }
        j = j + 1;
    }
    true
}

/// A triangulation table as it is decoded from its configuration text.
pub struct DeserTriangulation {
    pub triangulation_table: HashMap<u8, Vec<u8>>,
    pub connect_points: bool,
}

impl DeserTriangulation {
    /// Lays the decoded entries out by configuration and checks them.
    pub fn convert(self) -> (r: Result<Triangulation, ConfigError>)
        ensures
            r is Ok <==> table_ok(self.triangulation_table@, self.connect_points),
            r matches Ok(t) ==> {
                &&& t.wf()
                &&& t.connects_points() == self.connect_points
                &&& forall|k: int|
                    0 <= k < 256 ==> #[trigger] t.entry(k) == decoded_entry(
                        self.triangulation_table@,
                        k,
                    )
            },
            r matches Err(e) ==> e == ConfigError::Triangulation,
    {
        let connect_points = self.connect_points;
        let ghost source = self.triangulation_table@;
        let mut remaining = self.triangulation_table;
        let mut table: Vec<Vec<u8>> = Vec::new();
        let mut ok = true;
        let mut k: usize = 0;
        while k < CONFIGURATIONS
            invariant
                k <= 256,
                table@.len() == k,
                forall|i: int| 0 <= i < k ==> #[trigger] table@[i]@ == decoded_entry(source, i),
                forall|i: int| k <= i < 256 ==> #[trigger] decoded_entry(remaining@, i) == decoded_entry(source, i),
                ok == forall|i: int| 0 <= i < k ==> entry_ok(#[trigger] decoded_entry(source, i), connect_points),
            decreases 256 - k,
        {
            let key = k as u8;
            let ghost before = remaining@;
            assert(decoded_entry(before, k as int) == decoded_entry(source, k as int));
            let entry = match remaining.remove(&key) {
                Some(v) => v,
                None => Vec::new(),
            };
            assert(entry@ == decoded_entry(source, k as int));
            assert forall|i: int| k + 1 <= i < 256 implies #[trigger] decoded_entry(remaining@, i)
                == decoded_entry(source, i) by {
                assert((i as u8) != key);
                assert(decoded_entry(before, i) == decoded_entry(source, i));
            }
            if !check_entry(&entry, connect_points) {
                ok = false;
            }
            table.push(entry);
            k = k + 1;
        }
        if !ok || table[0].len() != 0 || table[255].len() != 0 {
            return Err(ConfigError::Triangulation);
        }
        Ok(Triangulation { table, connect_points })
    }
}

} // verus!
