//! Transform component: position, rotation (Euler radians or quaternion), scale.

use vstd::prelude::*;

verus! {

/// Bit pattern of `0.0_f32`.
pub const F32_ZERO_BITS: u32 = 0x0000_0000;

/// Bit pattern of `1.0_f32`.
pub const F32_ONE_BITS: u32 = 0x3F80_0000;

/// Transform of an entity relative to its parent. Every component is held as the IEEE-754 bit
/// pattern of the `f32` it stands for (`f32::to_bits` / `f32::from_bits`); the scene graph stores
/// and copies transforms, the matrix math that reads them runs outside this crate.
///
/// When `rotation_quat` is `Some`, it is used for the model matrix (avoids gimbal lock);
/// otherwise `rotation` (Euler roll, pitch, yaw in radians) is used.
#[derive(Clone, Copy, Debug, PartialEq, Eq)]
pub struct Transform {
    /// Position (x, y, z).
    pub position: [u32; 3],
    /// Rotation (roll, pitch, yaw) in radians. Ignored when `rotation_quat` is `Some`.
    pub rotation: [u32; 3],
    /// Optional rotation as unit quaternion (x, y, z, w).
    pub rotation_quat: Option<[u32; 4]>,
    /// Scale (x, y, z).
    pub scale: [u32; 3],
}

/// The identity transform: zero position and rotation, no quaternion, unit scale.
pub open spec fn spec_identity_transform() -> Transform {
    Transform {
        position: [F32_ZERO_BITS, F32_ZERO_BITS, F32_ZERO_BITS],
        rotation: [F32_ZERO_BITS, F32_ZERO_BITS, F32_ZERO_BITS],
        rotation_quat: None,
        scale: [F32_ONE_BITS, F32_ONE_BITS, F32_ONE_BITS],
    }
}

impl Default for Transform {
    fn default() -> (t: Self)
        ensures
            t == spec_identity_transform(),
    {
        Transform {
            position: [F32_ZERO_BITS, F32_ZERO_BITS, F32_ZERO_BITS],
            rotation: [F32_ZERO_BITS, F32_ZERO_BITS, F32_ZERO_BITS],
            rotation_quat: None,
            scale: [F32_ONE_BITS, F32_ONE_BITS, F32_ONE_BITS],
        }
    }
}

impl Transform {
    /// Transform with the given position (identity rotation, unit scale).
    pub fn with_position(x: u32, y: u32, z: u32) -> (t: Self)
        ensures
            t == (Transform { position: [x, y, z], ..spec_identity_transform() }),
    {
        Transform {
            position: [x, y, z],
            rotation: [F32_ZERO_BITS, F32_ZERO_BITS, F32_ZERO_BITS],
            rotation_quat: None,
            scale: [F32_ONE_BITS, F32_ONE_BITS, F32_ONE_BITS],
        }
    }

    /// Transform with the given position and Euler rotation (unit scale).
    pub fn with_position_rotation(pos: [u32; 3], rot: [u32; 3]) -> (t: Self)
        ensures
            t == (Transform { position: pos, rotation: rot, ..spec_identity_transform() }),
    {
        Transform {
            position: pos,
            rotation: rot,
            rotation_quat: None,
            scale: [F32_ONE_BITS, F32_ONE_BITS, F32_ONE_BITS],
        }
    }
}

} // verus!
