//! The per-field canonicalizers.  Each transform maps an optional raw
//! string to an optional canonical string: `None` passes through, and a
//! value that fails the field's validation is rejected as `None`.
//!
//! Every executable transform returns exactly the value of its
//! specification function, and each module proves that applying its
//! transform twice equals applying it once (for the fields where that
//! holds on every input; the exceptions state the inputs they need).

pub mod ape;
pub mod civilite;
pub mod email;
pub mod nom;
pub mod pce;
pub mod prenom;
pub mod raison_sociale;
pub mod siren;
pub mod siret;
pub mod telephone;
