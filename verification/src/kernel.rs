//! Backend-neutral kernel handles, operation kinds and the in-memory mock
//! kernel's integer bookkeeping.
use vstd::prelude::*;
use crate::error::CadError;

verus! {

/// Opaque backend-neutral solid body handle.
#[derive(Debug, Clone, PartialEq, Eq, Hash, Structural)]
pub struct KernelBody(pub u64);

/// Opaque backend-neutral wire/profile handle.
#[derive(Debug, Clone, PartialEq, Eq, Hash, Structural)]
pub struct KernelWire(pub u64);

impl KernelBody {
    pub fn new(id: u64) -> (body: KernelBody)
        ensures
            body.0 == id,
    {
        KernelBody(id)
    }
}

impl KernelWire {
    pub fn new(id: u64) -> (wire: KernelWire)
        ensures
            wire.0 == id,
    {
        KernelWire(id)
    }
}

/// Sketch plane of a revolve profile.
#[derive(Debug, Clone, Copy, PartialEq, Eq, Structural)]
pub enum ProfilePlane {
    Xy,
    Yz,
    Xz,
}

#[derive(Debug, Clone, Copy, PartialEq, Eq, Structural)]
pub enum RevolveOperation {
    NewBody,
    Cut,
    Join,
}

#[derive(Debug, Clone, Copy, PartialEq, Eq, Structural)]
pub enum BooleanOp {
    Union,
    Subtract,
    Intersect,
}

#[derive(Debug, Clone, Copy, PartialEq, Eq, Structural)]
pub enum ExtrudeOperation {
    NewBody,
    Cut,
    Join,
}

/// Which edges to fillet on a solid body.
#[derive(Debug, Clone, PartialEq, Eq)]
pub enum FilletEdgeSelector {
    /// Every edge on the body.
    All,
    /// Edges on the top face (maximum Z in the bounding box).
    TopPerimeter,
    /// Edges on the face with the given kernel B-Rep face id.
    FacePerimeter { kernel_face_id: u64 },
    /// Specific kernel B-Rep edges by id.
    KernelEdges { kernel_edge_ids: Vec<u64> },
    /// Edges matched by semantic role on the current body (longest match wins).
    EdgeRole { role: String },
}

impl Default for FilletEdgeSelector {
    fn default() -> (selector: FilletEdgeSelector)
        ensures
            selector is TopPerimeter,
    {
        FilletEdgeSelector::TopPerimeter
    }
}

/// In-memory mock kernel for tests and headless pipelines without OCCT.
#[derive(Debug, Default)]
pub struct MockGeometryKernel;

/// Body id the mock derives from a boolean of two bodies.
pub open spec fn mock_boolean_id(lhs: u64, rhs: u64, op: BooleanOp) -> u64 {
    match op {
        BooleanOp::Union => lhs ^ rhs,
        BooleanOp::Subtract => if lhs >= rhs {
            (lhs - rhs) as u64
        } else {
            (lhs - rhs + 0x1_0000_0000_0000_0000) as u64
        },
        BooleanOp::Intersect => lhs & rhs,
    }
}

impl MockGeometryKernel {
    pub fn new() -> (kernel: MockGeometryKernel) {
        MockGeometryKernel
    }

    /// A wire for a sketch profile of `point_count` points: at least two
    /// points are needed, and the wire id is the point count.
    pub fn make_wire_for_points(&self, point_count: usize) -> (r: Result<KernelWire, CadError>)
        ensures
            point_count < 2 <==> r is Err,
            r matches Ok(wire) ==> wire.0 == point_count,
            r matches Err(e) ==> (e matches CadError::Validation(m) && m@
                == "sketch profile needs at least two points"@),
    {
        if point_count < 2 {
            return Err(CadError::Validation("sketch profile needs at least two points".to_owned()));
        }
        Ok(KernelWire::new(point_count as u64))
    }

    /// Boolean of two mock bodies: the ids are combined with xor (union),
    /// wrapping subtraction (subtract) or and (intersect).
    pub fn boolean(&self, lhs: KernelBody, rhs: KernelBody, op: BooleanOp) -> (r: Result<
        KernelBody,
        CadError,
    >)
        ensures
            r matches Ok(body) && body.0 == mock_boolean_id(lhs.0, rhs.0, op),
    {
        let id = match op {
            BooleanOp::Union => lhs.0 ^ rhs.0,
            BooleanOp::Subtract => lhs.0.wrapping_sub(rhs.0),
            BooleanOp::Intersect => lhs.0 & rhs.0,
        };
        Ok(KernelBody::new(id))
    }

    /// The last step of a mock revolve, once the revolved `body` exists: a
    /// new body is returned as it is, a cut is subtracted from the target
    /// and a join is united with it; cut and join need a target.
    pub fn revolve_with_operation(
        &self,
        body: KernelBody,
        operation: RevolveOperation,
        target: Option<KernelBody>,
    ) -> (r: Result<KernelBody, CadError>)
        ensures
            operation is NewBody ==> r == Ok::<KernelBody, CadError>(body),
            operation is Cut ==> match target {
                Some(t) => r matches Ok(b) && b.0 == mock_boolean_id(t.0, body.0, BooleanOp::Subtract),
                None => r matches Err(CadError::Validation(m)) && m@ == "cut revolve requires target body"@,
            },
            operation is Join ==> match target {
                Some(t) => r matches Ok(b) && b.0 == mock_boolean_id(t.0, body.0, BooleanOp::Union),
                None => r matches Err(CadError::Validation(m)) && m@ == "join revolve requires target body"@,
            },
    {
        match operation {
            RevolveOperation::NewBody => Ok(body),
            RevolveOperation::Cut => {
                match target {
                    None => Err(CadError::Validation("cut revolve requires target body".to_owned())),
                    Some(target) => self.boolean(target, body, BooleanOp::Subtract),
                }
            },
            RevolveOperation::Join => {
                match target {
                    None => Err(CadError::Validation("join revolve requires target body".to_owned())),
                    Some(target) => self.boolean(target, body, BooleanOp::Union),
                }
            },
        }
    }

    /// The mock records no face derivation history.
    pub fn face_derivation_history(&self, body: &KernelBody) -> (history: Vec<(u64, u64)>)
        ensures
            history@.len() == 0,
    {
        Vec::new()
    }
}

} // verus!
