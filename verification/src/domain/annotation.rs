//! Code annotations (`TODO`, `FIXME`, ...) found by scanning repositories.

use vstd::prelude::*;

use super::ids::{AnnotationId, CardId, RepositoryId};

verus! {

/// One annotation as found in a file by a scan.
#[derive(Debug, PartialEq, Eq)]
pub struct Finding {
    pub repository_id: RepositoryId,
    pub path: String,
    pub line: usize,
    pub tag: String,
    pub message: String,
}

impl Clone for Finding {
    fn clone(&self) -> (r: Self)
        ensures
            r == *self,
    {
        Finding {
            repository_id: self.repository_id.clone(),
            path: self.path.clone(),
            line: self.line,
            tag: self.tag.clone(),
            message: self.message.clone(),
        }
    }
}

/// What the user decided about an annotation.
#[derive(Debug, Clone, Copy, PartialEq, Eq, Structural)]
pub enum AnnotationDisposition {
    Unassigned,
    Ignored,
    Linked { card_id: CardId },
}

/// An annotation tracked across scans.
#[derive(Debug, PartialEq, Eq)]
pub struct CodeAnnotation {
    pub id: AnnotationId,
    pub repository_id: RepositoryId,
    pub path: String,
    pub line: usize,
    pub tag: String,
    pub message: String,
    /// Which of the annotations with the same place, tag and message this one is.
    pub occurrence: usize,
    /// Whether the last scan found it.
    pub present: bool,
    pub disposition: AnnotationDisposition,
}

impl Clone for CodeAnnotation {
    fn clone(&self) -> (r: Self)
        ensures
            r == *self,
    {
        CodeAnnotation {
            id: self.id,
            repository_id: self.repository_id.clone(),
            path: self.path.clone(),
            line: self.line,
            tag: self.tag.clone(),
            message: self.message.clone(),
            occurrence: self.occurrence,
            present: self.present,
            disposition: self.disposition,
        }
    }
}

} // verus!
