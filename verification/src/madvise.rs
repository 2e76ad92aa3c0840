//! Access-pattern hints for memory-mapped files: which kernel advice a pattern
//! asks for, and which page ranges may be advised.
use vstd::prelude::*;

verus! {

/// Access pattern hint for memory-mapped files.
#[derive(Debug, Clone, Copy, PartialEq, Eq, Structural)]
pub enum AccessPattern {
    /// Sequential scan — aggressive readahead.
    Sequential,
    /// Random access — disable readahead.
    Random,
    /// Prefetch specific pages.
    Prefetch,
    /// Release pages when done.
    Release,
    /// No specific hint — let the OS decide.
    Normal,
}

impl Default for AccessPattern {
    fn default() -> (r: Self)
        ensures
            r == AccessPattern::Sequential,
    {
        AccessPattern::Sequential
    }
}

/// Advice given to the kernel for a mapped region.
#[derive(Debug, Clone, Copy, PartialEq, Eq, Structural)]
pub enum Advice {
    Sequential,
    Random,
    Normal,
    WillNeed,
    DontNeed,
}

/// The advice applied to a whole mapping for a pattern: prefetch and release
/// are applied to chosen page ranges only, so they give none here.
pub open spec fn whole_map_advice_of(pattern: AccessPattern) -> Option<Advice> {
    match pattern {
        AccessPattern::Sequential => Some(Advice::Sequential),
        AccessPattern::Random => Some(Advice::Random),
        AccessPattern::Normal => Some(Advice::Normal),
        _ => None,
    }
}

/// The advice to apply to a whole mapping for `pattern`, if any.
pub fn whole_map_advice(pattern: AccessPattern) -> (r: Option<Advice>)
    ensures
        r == whole_map_advice_of(pattern),
{
    match pattern {
        AccessPattern::Sequential => Some(Advice::Sequential),
        AccessPattern::Random => Some(Advice::Random),
        AccessPattern::Normal => Some(Advice::Normal),
        _ => None,
    }
}

/// Whether the page range `offset..offset + length` lies within a mapping of
/// `map_len` bytes; ranges reaching past the end are skipped.
pub fn range_in_map(offset: usize, length: usize, map_len: usize) -> (r: bool)
    requires
        offset + length <= usize::MAX,
    ensures
        r == (offset + length <= map_len),
{
    offset + length <= map_len
}

} // verus!
