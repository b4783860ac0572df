#![verifier::loop_isolation(false)]

use vstd::prelude::*;

pub mod documento;
pub mod enlaces;
pub mod fecha;
pub mod objeto;
pub mod unir;

pub use documento::Documento;
pub use documento::Marcador;
pub use enlaces::EnlacePDF;
pub use fecha::ErrorFecha;
pub use fecha::FechaBoe;
pub use fecha::comprobar_formato;
pub use objeto::Clase;
pub use objeto::IdObjeto;
pub use objeto::MObjeto;
pub use objeto::Objeto;
pub use unir::ErrorUnion;
pub use unir::Unido;
pub use unir::unir_documentos;

verus! {

} // verus!
