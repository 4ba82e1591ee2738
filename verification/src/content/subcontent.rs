//! The chunks that make up a piece of content on disk.
//!
//! A game folder holds chunks that belong to each content window; each [`Subcontent`] is one
//! of them, a file or a folder, and says how it is loaded and written.
pub mod content_folder;
pub mod manifest;
pub mod subfolder;

use vstd::prelude::*;
use self::content_folder::ContentFolder;
use self::manifest::ManifestItem;
use self::subfolder::Subfolder;

verus! {

/// A subcontent of any kind, owned: what a content window lists its chunks as.
pub enum SubcontentBox {
    Manifest(ManifestItem),
    ContentFolder(ContentFolder),
    Subfolder(Subfolder),
}

/// A subcontent of any kind, borrowed.
pub enum AnySubcontent<'a> {
    Manifest(&'a ManifestItem),
    ContentFolder(&'a ContentFolder),
    Subfolder(&'a Subfolder),
}

impl<'a> View for AnySubcontent<'a> {
    type V = SubcontentBox;

    /// The subcontent borrowed.
    open spec fn view(&self) -> SubcontentBox {
        match *self {
            AnySubcontent::Manifest(m) => SubcontentBox::Manifest(*m),
            AnySubcontent::ContentFolder(f) => SubcontentBox::ContentFolder(*f),
            AnySubcontent::Subfolder(s) => SubcontentBox::Subfolder(*s),
        }
    }
}

/// One chunk of content.
pub trait Subcontent {
    /// This chunk, as a subcontent of any kind.
    spec fn boxed(&self) -> SubcontentBox;

    /// This chunk, borrowed as a subcontent of any kind.
    fn as_any(&self) -> (r: AnySubcontent<'_>)
        ensures
            r@ == self.boxed(),
    ;

    /// This chunk as a `T`, where it is one.
    fn downcast_ref<T: Downcast>(&self) -> (r: Option<&T>)
        ensures
            r is Some <==> T::holds(self.boxed()),
            r matches Some(x) ==> T::wrap(x) == self.boxed(),
    {
        T::from_any(self.as_any())
    }
}

/// A kind of subcontent that a subcontent of any kind can be taken as.
pub trait Downcast: Sized {
    /// `x`, as a subcontent of any kind.
    spec fn wrap(x: &Self) -> SubcontentBox;

    /// Whether `b` is of this kind.
    spec fn holds(b: SubcontentBox) -> bool;

    /// The subcontent `a`, where it is of this kind.
    fn from_any<'a>(a: AnySubcontent<'a>) -> (r: Option<&'a Self>)
        ensures
            r is Some <==> Self::holds(a@),
            r matches Some(x) ==> Self::wrap(x) == a@,
    ;
}

impl Subcontent for SubcontentBox {
    open spec fn boxed(&self) -> SubcontentBox {
        *self
    }

    fn as_any(&self) -> (r: AnySubcontent<'_>) {
        match self {
            SubcontentBox::Manifest(m) => AnySubcontent::Manifest(m),
            SubcontentBox::ContentFolder(f) => AnySubcontent::ContentFolder(f),
            SubcontentBox::Subfolder(s) => AnySubcontent::Subfolder(s),
        }
    }
}

impl Subcontent for ManifestItem {
    open spec fn boxed(&self) -> SubcontentBox {
        SubcontentBox::Manifest(*self)
    }

    fn as_any(&self) -> (r: AnySubcontent<'_>) {
        AnySubcontent::Manifest(self)
    }
}

impl Downcast for ManifestItem {
    open spec fn wrap(x: &Self) -> SubcontentBox {
        SubcontentBox::Manifest(*x)
    }

    open spec fn holds(b: SubcontentBox) -> bool {
        b is Manifest
    }

    fn from_any<'a>(a: AnySubcontent<'a>) -> (r: Option<&'a Self>) {
        match a {
            AnySubcontent::Manifest(m) => Some(m),
            _ => None,
        }
    }
}

impl Subcontent for ContentFolder {
    open spec fn boxed(&self) -> SubcontentBox {
        SubcontentBox::ContentFolder(*self)
    }

    fn as_any(&self) -> (r: AnySubcontent<'_>) {
        AnySubcontent::ContentFolder(self)
    }
}

impl Downcast for ContentFolder {
    open spec fn wrap(x: &Self) -> SubcontentBox {
        SubcontentBox::ContentFolder(*x)
    }

    open spec fn holds(b: SubcontentBox) -> bool {
        b is ContentFolder
    }

    fn from_any<'a>(a: AnySubcontent<'a>) -> (r: Option<&'a Self>) {
        match a {
            AnySubcontent::ContentFolder(f) => Some(f),
            _ => None,
        }
    }
}

impl Subcontent for Subfolder {
    open spec fn boxed(&self) -> SubcontentBox {
        SubcontentBox::Subfolder(*self)
    }

    fn as_any(&self) -> (r: AnySubcontent<'_>) {
        AnySubcontent::Subfolder(self)
    }
}

impl Downcast for Subfolder {
    open spec fn wrap(x: &Self) -> SubcontentBox {
        SubcontentBox::Subfolder(*x)
    }

    open spec fn holds(b: SubcontentBox) -> bool {
        b is Subfolder
    }

    fn from_any<'a>(a: AnySubcontent<'a>) -> (r: Option<&'a Self>) {
        match a {
            AnySubcontent::Subfolder(s) => Some(s),
            _ => None,
        }
    }
}

} // verus!
