use crate::str_from_utf8;
use vstd::prelude::*;
use vstd::string::StringSliceAdditionalSpecFns;

verus! {

/// Whether no byte of `b` is 0.
pub open spec fn no_nul(b: Seq<u8>) -> bool {
    forall|i: int| 0 <= i < b.len() ==> b[i] != 0
}

/// The index of the first 0 byte of `b` from `k` on.
pub open spec fn first_nul_from(b: Seq<u8>, k: int) -> Option<int>
    decreases b.len() - k,
{
    if k < 0 || k >= b.len() {
        None
    } else if b[k] == 0 {
        Some(k)
    } else {
        first_nul_from(b, k + 1)
    }
}

/// An owned C string: bytes with no 0 among them, then a terminating 0.
pub struct CString {
    inner: Vec<u8>,
}

/// The error of `CString::_new`: where the first 0 byte was, and the bytes
/// given.
pub struct NulError(usize, Vec<u8>);

impl NulError {
    pub closed spec fn spec_position(&self) -> usize {
        self.0
    }

    pub closed spec fn spec_bytes(&self) -> Seq<u8> {
        self.1@
    }

    /// The index of the first 0 byte.
    pub fn nul_position(&self) -> (i: usize)
        ensures
            i == self.spec_position(),
    {
        self.0
    }

    /// The bytes that were given.
    pub fn into_vec(self) -> (v: Vec<u8>)
        ensures
            v@ == self.spec_bytes(),
    {
        self.1
    }
}

impl CString {
    /// The string's bytes, the terminating 0 included.
    pub closed spec fn with_nul(&self) -> Seq<u8> {
        self.inner@
    }

    pub open spec fn wf(&self) -> bool {
        &&& self.with_nul().len() > 0
        &&& self.with_nul().last() == 0
        &&& no_nul(self.with_nul().drop_last())
    }

    /// A C string of `bytes`; an error giving the first 0 byte's index
    /// when `bytes` holds one.
    pub fn _new(bytes: Vec<u8>) -> (r: Result<CString, NulError>)
        ensures
            first_nul_from(bytes@, 0) matches Some(i) ==> (r matches Err(e) && e.spec_position() == i && e.spec_bytes()
                == bytes@),
            first_nul_from(bytes@, 0) is None ==> (r matches Ok(c) && c.wf() && c.with_nul() == bytes@.push(0)),
    {
        let mut i: usize = 0;
        while i < bytes.len()
            invariant
                i <= bytes@.len(),
                first_nul_from(bytes@, i as int) == first_nul_from(bytes@, 0),
                no_nul(bytes@.take(i as int)),
            decreases bytes.len() - i,
        {
            if bytes[i] == 0 {
                return Err(NulError(i, bytes));
            }
            assert(bytes@.take(i + 1) =~= bytes@.take(i as int).push(bytes@[i as int]));
            i = i + 1;
        }
        assert(bytes@.take(bytes@.len() as int) =~= bytes@);
        Ok(CString::from_vec_unchecked(bytes))
    }

    /// A C string of `v`, which must hold no 0 byte (it is not checked).
    pub fn from_vec_unchecked(v: Vec<u8>) -> (c: CString)
        requires
            no_nul(v@),
        ensures
            c.wf(),
            c.with_nul() == v@.push(0),
    {
        let ghost v0 = v@;
        let mut v = v;
        v.push(0);
        let c = CString { inner: v };
        assert(c.with_nul().drop_last() =~= v0);
        c
    }

    /// The string's bytes, without the terminating 0.
    pub fn into_bytes(self) -> (v: Vec<u8>)
        requires
            self.wf(),
        ensures
            v@ == self.with_nul().drop_last(),
    {
        let mut vec = self.inner;
        let _nul = vec.pop();
        vec
    }
}

/// A borrowed C string, held with its terminating 0.
pub struct CStr {
    inner: Vec<u8>,
}

impl CStr {
    pub closed spec fn with_nul(&self) -> Seq<u8> {
        self.inner@
    }

    /// The C string whose bytes with the terminating 0 are `bytes`; `bytes`
    /// must end with its only 0 (it is not checked).
    pub fn from_bytes_with_nul_unchecked(bytes: &[u8]) -> (c: CStr)
        requires
            bytes@.len() > 0,
            bytes@.last() == 0,
            no_nul(bytes@.drop_last()),
        ensures
            c.with_nul() == bytes@,
    {
        let mut inner: Vec<u8> = Vec::new();
        let mut i: usize = 0;
        while i < bytes.len()
            invariant
                i <= bytes@.len(),
                inner@ == bytes@.take(i as int),
            decreases bytes.len() - i,
        {
            inner.push(bytes[i]);
            assert(inner@ =~= bytes@.take(i + 1));
            i = i + 1;
        }
        assert(bytes@.take(bytes@.len() as int) =~= bytes@);
        CStr { inner }
    }

    /// The string's bytes with the terminating 0.
    pub fn to_bytes_with_nul(&self) -> (b: &[u8])
        ensures
            b@ == self.with_nul(),
    {
        self.inner.as_slice()
    }

    /// The string's bytes without the terminating 0.
    pub fn to_bytes(&self) -> (b: &[u8])
        requires
            self.with_nul().len() > 0,
        ensures
            b@ == self.with_nul().drop_last(),
    {
        let bytes: &[u8] = self.to_bytes_with_nul();
        let r: &[u8] = vstd::slice::slice_subrange(bytes, 0, bytes.len() - 1);
        assert(r@ =~= self.with_nul().drop_last());
        r
    }

    /// The string as text, when its bytes (without the 0) are UTF-8.
    pub fn to_str(&self) -> (r: Result<&str, core::str::Utf8Error>)
        requires
            self.with_nul().len() > 0,
        ensures
            r is Ok <==> vstd::utf8::valid_utf8(self.with_nul().drop_last()),
            r matches Ok(s) ==> s@ == vstd::utf8::decode_utf8(self.with_nul().drop_last()) && s.spec_bytes()
                == self.with_nul().drop_last(),
    {
        str_from_utf8(self.to_bytes())
    }
}

} // verus!
