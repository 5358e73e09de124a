//! Meshes without a skeleton, such as the surface of a collision grid.

use crate::arith::Vec3;
use crate::character::buffers::{
    bytes_of_words, laid_out, matrix_words, push_matrix, push_quad, quad_words, Matrix,
};
use crate::character::gltf::{Node, Quad};
use crate::character::skeleton::{builds, makes, multiplies, products, Placement};
use vstd::prelude::*;
use vstd::string::StringExecFns;

verus! {

/// One primitive: its vertices, and the vertices of its triangles. What a
/// primitive lacks is empty.
#[derive(Debug)]
pub struct StaticPart {
    pub positions: Vec<Vec3>,
    pub indices: Vec<u32>,
}

/// Triangles over one list of vertices.
#[derive(Debug)]
pub struct Triangles {
    pub positions: Vec<Vec3>,
    pub indices: Vec<u32>,
}

/// A scene: the primitives of each mesh, the nodes, and the topmost nodes of
/// each scene of the document.
#[derive(Debug)]
pub struct StaticScene {
    pub meshes: Vec<Vec<StaticPart>>,
    pub nodes: Vec<Node>,
    pub scenes: Vec<Vec<usize>>,
}

/// Why there are no triangles.
#[derive(Clone, Copy, Debug, PartialEq, Eq, Structural)]
pub enum StaticMeshError {
    /// The document has no mesh.
    NoMesh,
    /// No vertex was found in any scene.
    NoMeshData,
    /// The number of a vertex does not fit.
    TooLarge,
    /// A node is its own descendant.
    EndlessTree,
}

impl StaticMeshError {
    /// The text shown for an error in the file `source`.
    pub open spec fn text(self, source: Seq<char>) -> Seq<char> {
        match self {
            StaticMeshError::NoMesh => "no mesh in "@ + source,
            StaticMeshError::NoMeshData => "no mesh data in "@ + source,
            StaticMeshError::TooLarge => "too many vertices in "@ + source,
            StaticMeshError::EndlessTree => "endless node tree in "@ + source,
        }
    }

    pub fn message(&self, source: &str) -> (r: String)
        ensures
            r@ == self.text(source@),
    {
        let mut text: String = String::from_str(
            match self {
                StaticMeshError::NoMesh => "no mesh in ",
                StaticMeshError::NoMeshData => "no mesh data in ",
                StaticMeshError::TooLarge => "too many vertices in ",
                StaticMeshError::EndlessTree => "endless node tree in ",
            },
        );
        text.append(source);
        text
    }
}

impl View for Triangles {
    type V = (Seq<Vec3>, Seq<u32>);

    open spec fn view(&self) -> (Seq<Vec3>, Seq<u32>) {
        (self.positions@, self.indices@)
    }
}

/// The vertices of a primitive can be numbered behind `base` others.
pub open spec fn numbers_fit(base: nat, indices: Seq<u32>) -> bool {
    forall|i: int| 0 <= i < indices.len() ==> base + #[trigger] indices[i] <= u32::MAX
}

/// Triangles with those of one more primitive, whose vertices come last.
pub open spec fn joined(
    triangles: (Seq<Vec3>, Seq<u32>),
    positions: Seq<Vec3>,
    indices: Seq<u32>,
) -> Result<(Seq<Vec3>, Seq<u32>), StaticMeshError> {
    let base = triangles.0.len();
    if numbers_fit(base, indices) {
        Ok(
            (
                triangles.0 + positions,
                triangles.1 + indices.map_values(|i: u32| (base + i) as u32),
            ),
        )
    } else {
        Err(StaticMeshError::TooLarge)
    }
}

/// Triangles with those of the first `n` primitives, each vertex moved by `shift`.
pub open spec fn all_joined(
    triangles: (Seq<Vec3>, Seq<u32>),
    parts: Seq<StaticPart>,
    shift: spec_fn(Vec3) -> Vec3,
    n: int,
) -> Result<(Seq<Vec3>, Seq<u32>), StaticMeshError>
    decreases n,
{
    if n <= 0 {
        Ok(triangles)
    } else {
        match all_joined(triangles, parts, shift, n - 1) {
            Ok(before) => joined(
                before,
                parts[n - 1].positions@.map_values(shift),
                parts[n - 1].indices@,
            ),
            Err(e) => Err(e),
        }
    }
}

/// Every vertex stays where it is.
pub open spec fn unmoved() -> spec_fn(Vec3) -> Vec3 {
    |p: Vec3| p
}

/// Every vertex is moved from the space of a node to the world.
pub open spec fn moved_by<M>(at: spec_fn(M, Vec3) -> Vec3, world: M) -> spec_fn(Vec3) -> Vec3 {
    |p: Vec3| at(world, p)
}

/// The function that moves vertices accepts every vertex.
pub open spec fn moves<M, A: Fn(M, Vec3) -> Vec3>(apply: A) -> bool {
    forall|m: M, p: Vec3| #[trigger] call_requires(apply, (m, p))
}

/// Whatever `apply` returns is what `h` gives.
pub open spec fn applies<M, A: Fn(M, Vec3) -> Vec3>(
    apply: A,
    h: spec_fn(M, Vec3) -> Vec3,
) -> bool {
    forall|m: M, p: Vec3, r: Vec3| #[trigger] call_ensures(apply, (m, p), r) ==> r == h(m, p)
}

/// Append the numbers of the vertices of a primitive, behind `base` others.
fn append_indices(triangles: &mut Triangles, base: usize, indices: &Vec<u32>) -> (r: Result<
    (),
    StaticMeshError,
>)
    ensures
        final(triangles).positions@ == old(triangles).positions@,
        r.is_ok() <==> numbers_fit(base as nat, indices@),
        r.is_ok() ==> final(triangles).indices@ == old(triangles).indices@ + indices@.map_values(
            |i: u32| (base as nat + i) as u32,
        ),
        r.is_err() ==> r == Err::<(), StaticMeshError>(StaticMeshError::TooLarge),
{
    let ghost before = triangles.indices@;
    let mut i: usize = 0;
    while i < indices.len()
        invariant
            i <= indices@.len(),
            triangles.positions@ == old(triangles).positions@,
            forall|k: int| 0 <= k < i ==> base + #[trigger] indices@[k] <= u32::MAX,
            triangles.indices@ == before + indices@.take(i as int).map_values(
                |i: u32| (base as nat + i) as u32,
            ),
        decreases indices@.len() - i,
    {
        if base > u32::MAX as usize || indices[i] > u32::MAX - base as u32 {
            assert(base + indices@[i as int] > u32::MAX);
            return Err(StaticMeshError::TooLarge);
        }
        triangles.indices.push(base as u32 + indices[i]);
        assert(indices@.take(i + 1) =~= indices@.take(i as int).push(indices@[i as int]));
        assert(triangles.indices@ =~= before + indices@.take(i + 1).map_values(
            |i: u32| (base as nat + i) as u32,
        ));
        i = i + 1;
    }
    assert(indices@.take(i as int) =~= indices@);
    Ok(())
}

/// The triangles of a mesh: those of all its primitives.
pub fn load_static_mesh(meshes: &Vec<Vec<StaticPart>>) -> (r: Result<Triangles, StaticMeshError>)
    ensures
        meshes@.len() == 0 ==> r == Err::<Triangles, StaticMeshError>(StaticMeshError::NoMesh),
        meshes@.len() > 0 ==> match all_joined(
            (Seq::empty(), Seq::empty()),
            meshes@[0]@,
            unmoved(),
            meshes@[0]@.len() as int,
        ) {
            Ok(triangles) => r.is_ok() && r->Ok_0@ == triangles,
            Err(e) => r == Err::<Triangles, StaticMeshError>(e),
        },
{
    if meshes.len() == 0 {
        return Err(StaticMeshError::NoMesh);
    }
    let parts: &Vec<StaticPart> = &meshes[0];
    let ghost start = (Seq::<Vec3>::empty(), Seq::<u32>::empty());
    let ghost stay = unmoved();
    let mut triangles: Triangles = Triangles { positions: Vec::new(), indices: Vec::new() };
    let mut n: usize = 0;
    while n < parts.len()
        invariant
            n <= parts@.len(),
            meshes@.len() > 0,
            parts@ == meshes@[0]@,
            stay == unmoved(),
            start == (Seq::<Vec3>::empty(), Seq::<u32>::empty()),
            all_joined(start, parts@, stay, n as int) == Ok::<
                (Seq<Vec3>, Seq<u32>),
                StaticMeshError,
            >(triangles@),
        decreases parts@.len() - n,
    {
        let ghost before = triangles@;
        let base: usize = triangles.positions.len();
        copy_positions(&mut triangles, &parts[n].positions);
        assert(parts@[n as int].positions@.map_values(stay) =~= parts@[n as int].positions@);
        match append_indices(&mut triangles, base, &parts[n].indices) {
            Ok(()) => {},
            Err(e) => {
                proof {
                    assert(all_joined(start, parts@, stay, n + 1).is_err());
                    lemma_errors_stay(start, parts@, stay, n + 1, parts@.len() as int);
                }
                return Err(e);
            },
        }
        n = n + 1;
    }
    Ok(triangles)
}

fn copy_positions(triangles: &mut Triangles, positions: &Vec<Vec3>)
    ensures
        final(triangles).positions@ == old(triangles).positions@ + positions@,
        final(triangles).indices@ == old(triangles).indices@,
{
    let ghost before = triangles.positions@;
    let mut i: usize = 0;
    while i < positions.len()
        invariant
            i <= positions@.len(),
            triangles.indices@ == old(triangles).indices@,
            triangles.positions@ == before + positions@.take(i as int),
        decreases positions@.len() - i,
    {
        triangles.positions.push(positions[i]);
        assert(positions@.take(i + 1) =~= positions@.take(i as int).push(positions@[i as int]));
        assert(triangles.positions@ =~= before + positions@.take(i + 1));
        i = i + 1;
    }
    assert(positions@.take(i as int) =~= positions@);
}

/// What fails stays failed.
proof fn lemma_errors_stay(
    triangles: (Seq<Vec3>, Seq<u32>),
    parts: Seq<StaticPart>,
    shift: spec_fn(Vec3) -> Vec3,
    n: int,
    m: int,
)
    requires
        all_joined(triangles, parts, shift, n).is_err(),
        0 <= n <= m,
    ensures
        all_joined(triangles, parts, shift, m) == all_joined(triangles, parts, shift, n),
    decreases m - n,
{
    if n < m {
        lemma_errors_stay(triangles, parts, shift, n, m - 1);
    }
}

impl StaticScene {
    /// All numbers of meshes and nodes exist.
    pub open spec fn wf(self) -> bool {
        &&& forall|i: int|
            0 <= i < self.nodes@.len() ==> ((#[trigger] self.nodes@[i]).mesh matches Some(m) ==> m
                < self.meshes@.len())
        &&& forall|i: int, k: int|
            0 <= i < self.nodes@.len() && 0 <= k < self.nodes@[i].children@.len() ==> (
            #[trigger] self.nodes@[i].children@[k]) < self.nodes@.len()
        &&& forall|i: int, k: int|
            0 <= i < self.scenes@.len() && 0 <= k < self.scenes@[i]@.len() ==> (
            #[trigger] self.scenes@[i]@[k]) < self.nodes@.len()
    }

    /// Triangles with those of the mesh of a node, moved to its place.
    pub open spec fn with_own<M>(
        self,
        at: spec_fn(M, Vec3) -> Vec3,
        node: int,
        world: M,
        triangles: (Seq<Vec3>, Seq<u32>),
    ) -> Result<(Seq<Vec3>, Seq<u32>), StaticMeshError> {
        match self.nodes@[node].mesh {
            Some(mesh) => all_joined(
                triangles,
                self.meshes@[mesh as int]@,
                moved_by(at, world),
                self.meshes@[mesh as int]@.len() as int,
            ),
            None => Ok(triangles),
        }
    }

    /// Triangles with those of a node and all below it, of which at most `fuel`
    /// follow each other.
    pub open spec fn visited<M>(
        self,
        make: spec_fn(Placement) -> M,
        times: spec_fn(M, M) -> M,
        at: spec_fn(M, Vec3) -> Vec3,
        node: int,
        parent: M,
        triangles: (Seq<Vec3>, Seq<u32>),
        fuel: nat,
    ) -> Result<(Seq<Vec3>, Seq<u32>), StaticMeshError>
        decreases fuel, self.nodes@[node].children@.len() + 1,
    {
        if fuel == 0 {
            Err(StaticMeshError::EndlessTree)
        } else {
            let world = times(parent, make(self.nodes@[node].placement));
            match self.with_own(at, node, world, triangles) {
                Ok(own) => self.below(
                    make,
                    times,
                    at,
                    node,
                    world,
                    own,
                    self.nodes@[node].children@.len(),
                    fuel,
                ),
                Err(e) => Err(e),
            }
        }
    }

    /// Triangles with those of the first `n` children of a node.
    pub open spec fn below<M>(
        self,
        make: spec_fn(Placement) -> M,
        times: spec_fn(M, M) -> M,
        at: spec_fn(M, Vec3) -> Vec3,
        node: int,
        world: M,
        triangles: (Seq<Vec3>, Seq<u32>),
        n: nat,
        fuel: nat,
    ) -> Result<(Seq<Vec3>, Seq<u32>), StaticMeshError>
        decreases fuel, n,
    {
        if n == 0 || fuel == 0 {
            Ok(triangles)
        } else {
            match self.below(make, times, at, node, world, triangles, (n - 1) as nat, fuel) {
                Ok(before) => self.visited(
                    make,
                    times,
                    at,
                    self.nodes@[node].children@[n - 1] as int,
                    world,
                    before,
                    (fuel - 1) as nat,
                ),
                Err(e) => Err(e),
            }
        }
    }
}

/// What is promised of a visit: its outcome is `spec`.
pub open spec fn comes_to(
    r: Result<(), StaticMeshError>,
    after: (Seq<Vec3>, Seq<u32>),
    spec_result: Result<(Seq<Vec3>, Seq<u32>), StaticMeshError>,
) -> bool {
    match spec_result {
        Ok(triangles) => r.is_ok() && after == triangles,
        Err(e) => r == Err::<(), StaticMeshError>(e),
    }
}

fn move_positions<M: Copy, A: Fn(M, Vec3) -> Vec3>(
    triangles: &mut Triangles,
    apply: &A,
    world: M,
    positions: &Vec<Vec3>,
)
    requires
        moves::<M, A>(*apply),
    ensures
        final(triangles).indices@ == old(triangles).indices@,
        forall|at: spec_fn(M, Vec3) -> Vec3| #[trigger]
            applies(*apply, at) ==> final(triangles).positions@ == old(triangles).positions@
                + positions@.map_values(moved_by(at, world)),
{
    let ghost before = triangles.positions@;
    let mut i: usize = 0;
    while i < positions.len()
        invariant
            i <= positions@.len(),
            moves::<M, A>(*apply),
            triangles.indices@ == old(triangles).indices@,
            forall|at: spec_fn(M, Vec3) -> Vec3| #[trigger]
                applies(*apply, at) ==> triangles.positions@ == before + positions@.take(
                    i as int,
                ).map_values(moved_by(at, world)),
        decreases positions@.len() - i,
    {
        let ghost so_far = triangles.positions@;
        let moved: Vec3 = apply(world, positions[i]);
        triangles.positions.push(moved);
        assert(positions@.take(i + 1) =~= positions@.take(i as int).push(positions@[i as int]));
        assert forall|at: spec_fn(M, Vec3) -> Vec3| #[trigger]
            applies(*apply, at) implies triangles.positions@ == before + positions@.take(
            i + 1,
        ).map_values(moved_by(at, world)) by {
            assert(moved == at(world, positions@[i as int]));
            assert(so_far == before + positions@.take(i as int).map_values(moved_by(at, world)));
            assert(triangles.positions@ =~= before + positions@.take(i + 1).map_values(
                moved_by(at, world),
            ));
        }
        i = i + 1;
    }
    assert(positions@.take(i as int) =~= positions@);
}

impl StaticScene {
    /// Add the triangles of a node's own mesh.
    fn add_own<M: Copy, A: Fn(M, Vec3) -> Vec3>(
        &self,
        apply: &A,
        node: usize,
        world: M,
        triangles: &mut Triangles,
    ) -> (r: Result<(), StaticMeshError>)
        requires
            moves::<M, A>(*apply),
            self.wf(),
            node < self.nodes@.len(),
        ensures
            forall|at: spec_fn(M, Vec3) -> Vec3| #[trigger]
                applies(*apply, at) ==> comes_to(
                    r,
                    final(triangles)@,
                    self.with_own(at, node as int, world, old(triangles)@),
                ),
    {
        let ghost start = triangles@;
        let mesh: usize = match self.nodes[node].mesh {
            Some(mesh) => mesh,
            None => {
                return Ok(());
            },
        };
        let parts: &Vec<StaticPart> = &self.meshes[mesh];
        let mut n: usize = 0;
        while n < parts.len()
            invariant
                n <= parts@.len(),
                moves::<M, A>(*apply),
                self.wf(),
                node < self.nodes@.len(),
                self.nodes@[node as int].mesh == Some(mesh),
                parts@ == self.meshes@[mesh as int]@,
                start == old(triangles)@,
                forall|at: spec_fn(M, Vec3) -> Vec3| #[trigger]
                    applies(*apply, at) ==> all_joined(
                        start,
                        parts@,
                        moved_by(at, world),
                        n as int,
                    ) == Ok::<(Seq<Vec3>, Seq<u32>), StaticMeshError>(triangles@),
            decreases parts@.len() - n,
        {
            let base: usize = triangles.positions.len();
            move_positions(triangles, apply, world, &parts[n].positions);
            match append_indices(triangles, base, &parts[n].indices) {
                Ok(()) => {},
                Err(e) => {
                    assert forall|at: spec_fn(M, Vec3) -> Vec3| #[trigger]
                        applies(*apply, at) implies self.with_own(at, node as int, world, start)
                        == Err::<(Seq<Vec3>, Seq<u32>), StaticMeshError>(e) by {
                        assert(all_joined(start, parts@, moved_by(at, world), n + 1).is_err());
                        lemma_errors_stay(
                            start,
                            parts@,
                            moved_by(at, world),
                            n + 1,
                            parts@.len() as int,
                        );
                    }
                    return Err(e);
                },
            }
            n = n + 1;
        }
        Ok(())
    }

    /// Add the triangles of a node and of all below it.
    fn visit<M: Copy, B: Fn(Placement) -> M, P: Fn(M, M) -> M, A: Fn(M, Vec3) -> Vec3>(
        &self,
        build: &B,
        product: &P,
        apply: &A,
        node: usize,
        parent: M,
        triangles: &mut Triangles,
        fuel: usize,
    ) -> (r: Result<(), StaticMeshError>)
        requires
            builds::<M, B>(*build),
            multiplies::<M, P>(*product),
            moves::<M, A>(*apply),
            self.wf(),
            node < self.nodes@.len(),
        ensures
            forall|
                m: spec_fn(Placement) -> M,
                h: spec_fn(M, M) -> M,
                at: spec_fn(M, Vec3) -> Vec3,
            |
                #![trigger makes(*build, m), products(*product, h), applies(*apply, at)]
                makes(*build, m) && products(*product, h) && applies(*apply, at) ==> comes_to(
                    r,
                    final(triangles)@,
                    self.visited(
                        m,
                        h,
                        at,
                        node as int,
                        parent,
                        old(triangles)@,
                        fuel as nat,
                    ),
                ),
        decreases fuel,
    {
        if fuel == 0 {
            return Err(StaticMeshError::EndlessTree);
        }
        let ghost start = triangles@;
        let local: M = build(self.nodes[node].placement);
        let world: M = product(parent, local);
        match self.add_own(apply, node, world, triangles) {
            Ok(()) => {},
            Err(e) => {
                return Err(e);
            },
        }
        let ghost own = triangles@;
        let children: &Vec<usize> = &self.nodes[node].children;
        let mut n: usize = 0;
        while n < children.len()
            invariant
                n <= children@.len(),
                builds::<M, B>(*build),
                multiplies::<M, P>(*product),
                moves::<M, A>(*apply),
                self.wf(),
                node < self.nodes@.len(),
                fuel > 0,
                children@ == self.nodes@[node as int].children@,
                start == old(triangles)@,
                forall|m: spec_fn(Placement) -> M, h: spec_fn(M, M) -> M|
                    #![trigger makes(*build, m), products(*product, h)]
                    makes(*build, m) && products(*product, h) ==> world == h(
                        parent,
                        m(self.nodes@[node as int].placement),
                    ),
                forall|at: spec_fn(M, Vec3) -> Vec3| #[trigger]
                    applies(*apply, at) ==> self.with_own(at, node as int, world, start) == Ok::<
                        (Seq<Vec3>, Seq<u32>),
                        StaticMeshError,
                    >(own),
                forall|
                    m: spec_fn(Placement) -> M,
                    h: spec_fn(M, M) -> M,
                    at: spec_fn(M, Vec3) -> Vec3,
                |
                    #![trigger makes(*build, m), products(*product, h), applies(*apply, at)]
                    makes(*build, m) && products(*product, h) && applies(*apply, at)
                        ==> self.below(m, h, at, node as int, world, own, n as nat, fuel as nat)
                        == Ok::<(Seq<Vec3>, Seq<u32>), StaticMeshError>(triangles@),
            decreases children@.len() - n,
        {
            match self.visit(build, product, apply, children[n], world, triangles, fuel - 1) {
                Ok(()) => {},
                Err(e) => {
                    assert forall|
                        m: spec_fn(Placement) -> M,
                        h: spec_fn(M, M) -> M,
                        at: spec_fn(M, Vec3) -> Vec3,
                    |
                        #![trigger makes(*build, m), products(*product, h), applies(*apply, at)]
                        makes(*build, m) && products(*product, h) && applies(
                            *apply,
                            at,
                        ) implies self.visited(
                        m,
                        h,
                        at,
                        node as int,
                        parent,
                        start,
                        fuel as nat,
                    ) == Err::<(Seq<Vec3>, Seq<u32>), StaticMeshError>(e) by {
                        assert(self.below(
                            m,
                            h,
                            at,
                            node as int,
                            world,
                            own,
                            (n + 1) as nat,
                            fuel as nat,
                        ) == Err::<(Seq<Vec3>, Seq<u32>), StaticMeshError>(e));
                        self.lemma_below_stays(
                            m,
                            h,
                            at,
                            node as int,
                            world,
                            own,
                            (n + 1) as nat,
                            children@.len(),
                            fuel as nat,
                        );
                    }
                    return Err(e);
                },
            }
            n = n + 1;
        }
        Ok(())
    }

    proof fn lemma_below_stays<M>(
        self,
        make: spec_fn(Placement) -> M,
        times: spec_fn(M, M) -> M,
        at: spec_fn(M, Vec3) -> Vec3,
        node: int,
        world: M,
        triangles: (Seq<Vec3>, Seq<u32>),
        n: nat,
        more: nat,
        fuel: nat,
    )
        requires
            self.below(make, times, at, node, world, triangles, n, fuel).is_err(),
            n <= more,
        ensures
            self.below(make, times, at, node, world, triangles, more, fuel) == self.below(
                make,
                times,
                at,
                node,
                world,
                triangles,
                n,
                fuel,
            ),
        decreases more,
    {
        if n < more {
            self.lemma_below_stays(
                make,
                times,
                at,
                node,
                world,
                triangles,
                n,
                (more - 1) as nat,
                fuel,
            );
        }
    }
}

impl StaticScene {
    /// Triangles with those of the first `n` of some topmost nodes.
    pub open spec fn rooted<M>(
        self,
        make: spec_fn(Placement) -> M,
        times: spec_fn(M, M) -> M,
        at: spec_fn(M, Vec3) -> Vec3,
        identity: M,
        triangles: (Seq<Vec3>, Seq<u32>),
        roots: Seq<usize>,
        n: int,
    ) -> Result<(Seq<Vec3>, Seq<u32>), StaticMeshError>
        decreases n,
    {
        if n <= 0 {
            Ok(triangles)
        } else {
            match self.rooted(make, times, at, identity, triangles, roots, n - 1) {
                Ok(before) => self.visited(
                    make,
                    times,
                    at,
                    roots[n - 1] as int,
                    identity,
                    before,
                    self.nodes@.len(),
                ),
                Err(e) => Err(e),
            }
        }
    }

    /// The triangles of the first `n` scenes.
    pub open spec fn gathered<M>(
        self,
        make: spec_fn(Placement) -> M,
        times: spec_fn(M, M) -> M,
        at: spec_fn(M, Vec3) -> Vec3,
        identity: M,
        n: int,
    ) -> Result<(Seq<Vec3>, Seq<u32>), StaticMeshError>
        decreases n,
    {
        if n <= 0 {
            Ok((Seq::empty(), Seq::empty()))
        } else {
            match self.gathered(make, times, at, identity, n - 1) {
                Ok(before) => self.rooted(
                    make,
                    times,
                    at,
                    identity,
                    before,
                    self.scenes@[n - 1]@,
                    self.scenes@[n - 1]@.len() as int,
                ),
                Err(e) => Err(e),
            }
        }
    }

    /// The triangles of all scenes in the world; none are an error.
    pub open spec fn in_world<M>(
        self,
        make: spec_fn(Placement) -> M,
        times: spec_fn(M, M) -> M,
        at: spec_fn(M, Vec3) -> Vec3,
        identity: M,
    ) -> Result<(Seq<Vec3>, Seq<u32>), StaticMeshError> {
        match self.gathered(make, times, at, identity, self.scenes@.len() as int) {
            Ok(triangles) => if triangles.0.len() == 0 {
                Err(StaticMeshError::NoMeshData)
            } else {
                Ok(triangles)
            },
            Err(e) => Err(e),
        }
    }

    proof fn lemma_rooted_stays<M>(
        self,
        make: spec_fn(Placement) -> M,
        times: spec_fn(M, M) -> M,
        at: spec_fn(M, Vec3) -> Vec3,
        identity: M,
        triangles: (Seq<Vec3>, Seq<u32>),
        roots: Seq<usize>,
        n: int,
        more: int,
    )
        requires
            self.rooted(make, times, at, identity, triangles, roots, n).is_err(),
            0 <= n <= more,
        ensures
            self.rooted(make, times, at, identity, triangles, roots, more) == self.rooted(
                make,
                times,
                at,
                identity,
                triangles,
                roots,
                n,
            ),
        decreases more,
    {
        if n < more {
            self.lemma_rooted_stays(make, times, at, identity, triangles, roots, n, more - 1);
        }
    }

    proof fn lemma_gathered_stays<M>(
        self,
        make: spec_fn(Placement) -> M,
        times: spec_fn(M, M) -> M,
        at: spec_fn(M, Vec3) -> Vec3,
        identity: M,
        n: int,
        more: int,
    )
        requires
            self.gathered(make, times, at, identity, n).is_err(),
            0 <= n <= more,
        ensures
            self.gathered(make, times, at, identity, more) == self.gathered(
                make,
                times,
                at,
                identity,
                n,
            ),
        decreases more,
    {
        if n < more {
            self.lemma_gathered_stays(make, times, at, identity, n, more - 1);
        }
    }

    /// Add the triangles below some topmost nodes.
    fn visit_roots<M: Copy, B: Fn(Placement) -> M, P: Fn(M, M) -> M, A: Fn(M, Vec3) -> Vec3>(
        &self,
        build: &B,
        product: &P,
        apply: &A,
        identity: M,
        scene: usize,
        triangles: &mut Triangles,
    ) -> (r: Result<(), StaticMeshError>)
        requires
            builds::<M, B>(*build),
            multiplies::<M, P>(*product),
            moves::<M, A>(*apply),
            self.wf(),
            scene < self.scenes@.len(),
        ensures
            forall|
                m: spec_fn(Placement) -> M,
                h: spec_fn(M, M) -> M,
                at: spec_fn(M, Vec3) -> Vec3,
            |
                #![trigger makes(*build, m), products(*product, h), applies(*apply, at)]
                makes(*build, m) && products(*product, h) && applies(*apply, at) ==> comes_to(
                    r,
                    final(triangles)@,
                    self.rooted(
                        m,
                        h,
                        at,
                        identity,
                        old(triangles)@,
                        self.scenes@[scene as int]@,
                        self.scenes@[scene as int]@.len() as int,
                    ),
                ),
    {
        let ghost start = triangles@;
        let roots: &Vec<usize> = &self.scenes[scene];
        let mut n: usize = 0;
        while n < roots.len()
            invariant
                n <= roots@.len(),
                builds::<M, B>(*build),
                multiplies::<M, P>(*product),
                moves::<M, A>(*apply),
                self.wf(),
                scene < self.scenes@.len(),
                roots@ == self.scenes@[scene as int]@,
                start == old(triangles)@,
                forall|
                    m: spec_fn(Placement) -> M,
                    h: spec_fn(M, M) -> M,
                    at: spec_fn(M, Vec3) -> Vec3,
                |
                    #![trigger makes(*build, m), products(*product, h), applies(*apply, at)]
                    makes(*build, m) && products(*product, h) && applies(*apply, at)
                        ==> self.rooted(m, h, at, identity, start, roots@, n as int) == Ok::<
                        (Seq<Vec3>, Seq<u32>),
                        StaticMeshError,
                    >(triangles@),
            decreases roots@.len() - n,
        {
            match self.visit(
                build,
                product,
                apply,
                roots[n],
                identity,
                triangles,
                self.nodes.len(),
            ) {
                Ok(()) => {},
                Err(e) => {
                    assert forall|
                        m: spec_fn(Placement) -> M,
                        h: spec_fn(M, M) -> M,
                        at: spec_fn(M, Vec3) -> Vec3,
                    |
                        #![trigger makes(*build, m), products(*product, h), applies(*apply, at)]
                        makes(*build, m) && products(*product, h) && applies(
                            *apply,
                            at,
                        ) implies self.rooted(
                        m,
                        h,
                        at,
                        identity,
                        start,
                        roots@,
                        roots@.len() as int,
                    ) == Err::<(Seq<Vec3>, Seq<u32>), StaticMeshError>(e) by {
                        assert(self.rooted(m, h, at, identity, start, roots@, n + 1).is_err());
                        self.lemma_rooted_stays(
                            m,
                            h,
                            at,
                            identity,
                            start,
                            roots@,
                            n + 1,
                            roots@.len() as int,
                        );
                    }
                    return Err(e);
                },
            }
            n = n + 1;
        }
        Ok(())
    }

    /// The triangles of all scenes, moved to the world. `build` makes the matrix
    /// of a node, `product` multiplies matrices, and `apply` moves a vertex.
    pub fn load_in_world<M: Copy, B: Fn(Placement) -> M, P: Fn(M, M) -> M, A: Fn(M, Vec3) -> Vec3>(
        &self,
        build: &B,
        product: &P,
        apply: &A,
        identity: M,
    ) -> (r: Result<Triangles, StaticMeshError>)
        requires
            builds::<M, B>(*build),
            multiplies::<M, P>(*product),
            moves::<M, A>(*apply),
            self.wf(),
        ensures
            forall|
                m: spec_fn(Placement) -> M,
                h: spec_fn(M, M) -> M,
                at: spec_fn(M, Vec3) -> Vec3,
            |
                #![trigger makes(*build, m), products(*product, h), applies(*apply, at)]
                makes(*build, m) && products(*product, h) && applies(*apply, at)
                    ==> match self.in_world(m, h, at, identity) {
                    Ok(triangles) => r.is_ok() && r->Ok_0@ == triangles,
                    Err(e) => r == Err::<Triangles, StaticMeshError>(e),
                },
    {
        let mut triangles: Triangles = Triangles { positions: Vec::new(), indices: Vec::new() };
        let mut n: usize = 0;
        while n < self.scenes.len()
            invariant
                n <= self.scenes@.len(),
                builds::<M, B>(*build),
                multiplies::<M, P>(*product),
                moves::<M, A>(*apply),
                self.wf(),
                forall|
                    m: spec_fn(Placement) -> M,
                    h: spec_fn(M, M) -> M,
                    at: spec_fn(M, Vec3) -> Vec3,
                |
                    #![trigger makes(*build, m), products(*product, h), applies(*apply, at)]
                    makes(*build, m) && products(*product, h) && applies(*apply, at)
                        ==> self.gathered(m, h, at, identity, n as int) == Ok::<
                        (Seq<Vec3>, Seq<u32>),
                        StaticMeshError,
                    >(triangles@),
            decreases self.scenes@.len() - n,
        {
            match self.visit_roots(build, product, apply, identity, n, &mut triangles) {
                Ok(()) => {},
                Err(e) => {
                    assert forall|
                        m: spec_fn(Placement) -> M,
                        h: spec_fn(M, M) -> M,
                        at: spec_fn(M, Vec3) -> Vec3,
                    |
                        #![trigger makes(*build, m), products(*product, h), applies(*apply, at)]
                        makes(*build, m) && products(*product, h) && applies(
                            *apply,
                            at,
                        ) implies self.in_world(m, h, at, identity) == Err::<
                        (Seq<Vec3>, Seq<u32>),
                        StaticMeshError,
                    >(e) by {
                        assert(self.gathered(m, h, at, identity, n + 1).is_err());
                        self.lemma_gathered_stays(
                            m,
                            h,
                            at,
                            identity,
                            n + 1,
                            self.scenes@.len() as int,
                        );
                    }
                    return Err(e);
                },
            }
            n = n + 1;
        }
        if triangles.positions.len() == 0 {
            return Err(StaticMeshError::NoMeshData);
        }
        Ok(triangles)
    }
}

/// Three words for each vertex.
pub open spec fn position_words(positions: Seq<Vec3>) -> Seq<u32>
    decreases positions.len(),
{
    if positions.len() == 0 {
        Seq::empty()
    } else {
        let p = positions.last();
        position_words(positions.drop_last()) + seq![p.x.bits, p.y.bits, p.z.bits]
    }
}

impl Triangles {
    /// The vertex buffer: twelve bytes for each vertex.
    pub fn position_bytes(&self) -> (r: Vec<u8>)
        ensures
            laid_out(r@, position_words(self.positions@)),
    {
        let mut words: Vec<u32> = Vec::new();
        let mut i: usize = 0;
        while i < self.positions.len()
            invariant
                i <= self.positions@.len(),
                words@ == position_words(self.positions@.take(i as int)),
            decreases self.positions@.len() - i,
        {
            let p: Vec3 = self.positions[i];
            let ghost before = words@;
            words.push(p.x.bits);
            words.push(p.y.bits);
            words.push(p.z.bits);
            assert(self.positions@.take(i + 1).drop_last() =~= self.positions@.take(i as int));
            assert(words@ =~= before + seq![p.x.bits, p.y.bits, p.z.bits]);
            i = i + 1;
        }
        assert(self.positions@.take(i as int) =~= self.positions@);
        bytes_of_words(&words)
    }

    /// The index buffer.
    pub fn index_bytes(&self) -> (r: Vec<u8>)
        ensures
            laid_out(r@, self.indices@),
    {
        bytes_of_words(&self.indices)
    }
}

/// The overlay as the shader reads it: the matrix of the camera, and a colour.
pub fn overlay_bytes(view_proj: Matrix, color: Quad) -> (r: Vec<u8>)
    ensures
        laid_out(r@, matrix_words(view_proj) + quad_words(color)),
{
    let mut words: Vec<u32> = Vec::new();
    push_matrix(&mut words, view_proj);
    push_quad(&mut words, color);
    assert(words@ =~= matrix_words(view_proj) + quad_words(color));
    bytes_of_words(&words)
}

} // verus!
