//! The templates' preset configurations, by name.
use vstd::prelude::*;
use crate::report::ReportConfig;
use crate::report::templates::{ReportTemplate, is_preset};

verus! {

pub fn detailed() -> (r: ReportConfig)
    ensures
        is_preset(ReportTemplate::Detailed, r),
{
    ReportTemplate::Detailed.config()
}

pub fn summary() -> (r: ReportConfig)
    ensures
        is_preset(ReportTemplate::Summary, r),
{
    ReportTemplate::Summary.config()
}

pub fn thread_focused() -> (r: ReportConfig)
    ensures
        is_preset(ReportTemplate::ThreadFocused, r),
{
    ReportTemplate::ThreadFocused.config()
}

pub fn function_focused() -> (r: ReportConfig)
    ensures
        is_preset(ReportTemplate::FunctionFocused, r),
{
    ReportTemplate::FunctionFocused.config()
}

} // verus!
