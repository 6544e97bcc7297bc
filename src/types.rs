//! A flat form of the WaveJSON document, in which a row's data is one text.
use vstd::prelude::*;

verus! {

#[derive(Debug, Default, PartialEq, Eq)]
pub struct WaveJson {
    pub signal: Vec<WaveJsonSignal>,
    pub head: Option<Head>,
    pub foot: Option<Foot>,
}

#[derive(Debug, Default, PartialEq, Eq)]
pub struct WaveJsonSignal {
    pub name: Option<String>,
    pub wave: Option<String>,
    pub data: Option<String>,
}

#[derive(Debug, Default, PartialEq, Eq)]
pub struct Head {}

#[derive(Debug, Default, PartialEq, Eq)]
pub struct Foot {}

} // verus!
