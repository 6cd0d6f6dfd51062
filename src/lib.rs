//! Two small compilers for a toy language whose variables may be null, the
//! text utilities they share, and the bookkeeping of a bouncing-ball scene
//! that needs no arithmetic on coordinates.

pub mod text;
pub mod bindings;
pub mod mist;
pub mod tiny;
pub mod scene;
