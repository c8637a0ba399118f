//! Workspace names.

use vstd::prelude::*;

verus! {

use crate::text::{bytes_before, same_text, text_before};

/// A valid workspace name.
///
/// `text` is the name as the user wrote it, trimmed; `key` is its folded
/// form. Two names collide when their keys are equal, whatever the case they
/// were typed in.
#[derive(Debug, PartialEq)]
pub struct WorkspaceName {
    pub text: String,
    pub key: String,
}

pub open spec fn collides(a: WorkspaceName, b: WorkspaceName) -> bool {
    a.key@ == b.key@
}

/// The same spelling as well as the same workspace.
pub open spec fn same_name(a: WorkspaceName, b: WorkspaceName) -> bool {
    a.text@ == b.text@ && a.key@ == b.key@
}

pub open spec fn same_name_option(a: Option<WorkspaceName>, b: Option<WorkspaceName>) -> bool {
    match (a, b) {
        (Some(x), Some(y)) => same_name(x, y),
        (None, None) => true,
        _ => false,
    }
}

/// Name order: byte order of the written form.
pub open spec fn name_before(a: WorkspaceName, b: WorkspaceName) -> bool {
    bytes_before(vstd::utf8::encode_utf8(a.text@), vstd::utf8::encode_utf8(b.text@))
}

impl WorkspaceName {
    pub fn collides_with(&self, other: &WorkspaceName) -> (same: bool)
        ensures
            same == collides(*self, *other),
    {
        same_text(&self.key, &other.key)
    }

    pub fn same(&self, other: &WorkspaceName) -> (same: bool)
        ensures
            same == same_name(*self, *other),
    {
        same_text(&self.text, &other.text) && same_text(&self.key, &other.key)
    }

    pub fn before(&self, other: &WorkspaceName) -> (before: bool)
        ensures
            before == name_before(*self, *other),
    {
        text_before(&self.text, &other.text)
    }
}

pub fn copy_name(name: &Option<WorkspaceName>) -> (copy: Option<WorkspaceName>)
    ensures
        copy == *name,
{
    match name {
        Some(inner) => Some(inner.clone()),
        None => None,
    }
}

pub fn same_names(a: &Option<WorkspaceName>, b: &Option<WorkspaceName>) -> (same: bool)
    ensures
        same == same_name_option(*a, *b),
{
    match a {
        Some(x) => match b {
            Some(y) => x.same(y),
            None => false,
        },
        None => match b {
            Some(_) => false,
            None => true,
        },
    }
}

/// Why text is not a workspace name.
#[derive(Debug, Clone, Copy, PartialEq, Eq, Structural)]
pub enum WorkspaceNameError {
    Empty,
    TooLong,
    InvalidCharacter,
}

/// What name validation made of some text.
#[derive(Debug, PartialEq)]
pub enum NameCheck {
    Valid(WorkspaceName),
    Invalid(WorkspaceNameError),
}

/// A name as a command or a rule spelled it.
#[derive(Debug, PartialEq)]
pub struct RequestedName {
    pub text: String,
    pub name: NameCheck,
}

/// The request that spells an existing name.
pub open spec fn request_for(name: WorkspaceName) -> RequestedName {
    RequestedName { text: name.text, name: NameCheck::Valid(name) }
}

impl RequestedName {
    pub fn for_name(name: &WorkspaceName) -> (request: RequestedName)
        ensures
            request == request_for(*name),
    {
        RequestedName { text: name.text.clone(), name: NameCheck::Valid(name.clone()) }
    }
}

impl Clone for WorkspaceName {
    fn clone(&self) -> (copy: WorkspaceName)
        ensures
            copy == *self,
    {
        WorkspaceName { text: self.text.clone(), key: self.key.clone() }
    }
}

impl Clone for RequestedName {
    fn clone(&self) -> (copy: RequestedName)
        ensures
            copy == *self,
    {
        RequestedName {
            text: self.text.clone(),
            name: match &self.name {
                NameCheck::Valid(name) => NameCheck::Valid(name.clone()),
                NameCheck::Invalid(error) => NameCheck::Invalid(*error),
            },
        }
    }
}

} // verus!
