//! The fragment kinds of [`WebUiFragment`](super::types::WebUiFragment).
use vstd::prelude::*;
use super::types::{
    WebUiFragmentAttribute, WebUiFragmentComponent, WebUiFragmentFor, WebUiFragmentIf,
    WebUiFragmentOutlet, WebUiFragmentPlugin, WebUiFragmentRaw, WebUiFragmentRoute,
    WebUiFragmentSignal,
};

verus! {

/// One kind of fragment.
#[derive(Debug, PartialEq)]
pub enum Fragment {
    Raw(WebUiFragmentRaw),
    Component(WebUiFragmentComponent),
    ForLoop(WebUiFragmentFor),
    Signal(WebUiFragmentSignal),
    IfCond(WebUiFragmentIf),
    Attribute(WebUiFragmentAttribute),
    Plugin(WebUiFragmentPlugin),
    Route(WebUiFragmentRoute),
    Outlet(WebUiFragmentOutlet),
}

} // verus!
