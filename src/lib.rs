//! Reading game cards from screenshots: region preprocessing for OCR, the fixed
//! screen layouts, OCR-tolerant text matching, and the catalog that resolves
//! recognized cards to their ranks.
use vstd::prelude::*;

pub mod text;
pub mod matcher;
pub mod normalize;
pub mod catalog;
pub mod preprocess;
pub mod pipeline;

verus! {

} // verus!
