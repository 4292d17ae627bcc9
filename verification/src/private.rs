//! Marker traits that keep the extension traits closed: only the types
//! marked here can ever implement them.

use vstd::prelude::*;

verus! {

pub trait OptionExtSealed {

}

pub trait SliceExtSealed {

}

} // verus!
