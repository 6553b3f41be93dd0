//! Shapes shared by everything that looks at the file system: an entry is
//! either a directory or a file, each carrying its own payload.
pub mod unix;

use vstd::prelude::*;

verus! {

/// One character that stands for the kind of a file system entry, as in
/// the first column of `ls -l`.
pub trait TypeChar {
    fn type_char(&self) -> char;
}

/// A directory carrying `D` or a file carrying `F`.
#[derive(Clone, Copy, Debug, PartialEq, Eq)]
pub enum Entry<D, F> {
    Dir(D),
    File(F),
}

impl<D, F> Entry<D, F> {
    /// Applies `f` to the payload of a directory; a file passes unchanged.
    pub fn map_dir<T, G: FnOnce(D) -> T>(self, f: G) -> (res: Entry<T, F>)
        requires
            self matches Entry::Dir(d) ==> f.requires((d,)),
        ensures
            match self {
                Entry::Dir(d) => res matches Entry::Dir(t) && f.ensures((d,), t),
                Entry::File(x) => res == Entry::<T, F>::File(x),
            },
    {
        match self {
            Self::Dir(d) => Entry::Dir(f(d)),
            Self::File(f) => Entry::File(f),
        }
    }

    /// `f` of the payload of a directory, `default` for a file.
    pub fn map_dir_or<T, G: FnOnce(D) -> T>(self, default: T, f: G) -> (res: T)
        requires
            self matches Entry::Dir(d) ==> f.requires((d,)),
        ensures
            match self {
                Entry::Dir(d) => f.ensures((d,), res),
                Entry::File(_) => res == default,
            },
    {
        match self {
            Self::Dir(d) => f(d),
            Self::File(_) => default,
        }
    }

    /// Applies `f` to the payload of a file; a directory passes unchanged.
    pub fn map_file<T, G: FnOnce(F) -> T>(self, f: G) -> (res: Entry<D, T>)
        requires
            self matches Entry::File(x) ==> f.requires((x,)),
        ensures
            match self {
                Entry::Dir(d) => res == Entry::<D, T>::Dir(d),
                Entry::File(x) => res matches Entry::File(t) && f.ensures((x,), t),
            },
    {
        match self {
            Self::Dir(d) => Entry::Dir(d),
            Self::File(file_entry) => Entry::File(f(file_entry)),
        }
    }

    /// The same entry, borrowing its payload.
    pub fn as_ref(&self) -> (res: Entry<&D, &F>)
        ensures
            match *self {
                Entry::Dir(d) => res matches Entry::Dir(r) && *r == d,
                Entry::File(x) => res matches Entry::File(r) && *r == x,
            },
    {
        match self {
            Self::Dir(d) => Entry::Dir(d),
            Self::File(f) => Entry::File(f),
        }
    }

    /// The payload of a directory, `None` for a file.
    pub fn dir(self) -> (res: Option<D>)
        ensures
            match self {
                Entry::Dir(d) => res == Some(d),
                Entry::File(_) => res is None,
            },
    {
        match self {
            Self::Dir(d) => Some(d),
            Self::File(_) => None,
        }
    }

    /// The payload of a file, `None` for a directory.
    pub fn file(self) -> (res: Option<F>)
        ensures
            match self {
                Entry::Dir(_) => res is None,
                Entry::File(x) => res == Some(x),
            },
    {
        match self {
            Self::Dir(_) => None,
            Self::File(f) => Some(f),
        }
    }
}

impl<T> Entry<T, T> {
    /// The payload, whichever side holds it.
    pub fn unwrap_either(self) -> (res: T)
        ensures
            match self {
                Entry::Dir(d) => res == d,
                Entry::File(x) => res == x,
            },
    {
        match self {
            Self::Dir(d) => d,
            Self::File(f) => f,
        }
    }
}

} // verus!
