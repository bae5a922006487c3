use vstd::prelude::*;

verus! {

/// What a query's resource resolves to: its data, or nothing while the query
/// has none.
#[derive(Clone, Debug, PartialEq, Eq)]
pub struct ResourceData<V>(pub Option<V>);

/// The text that stands for no data.
pub open spec fn null_text() -> Seq<char> {
    seq!['n', 'u', 'l', 'l']
}

/// Whether `text` stands for no data: it is empty or reads `null`.
pub open spec fn is_null_text(text: Seq<char>) -> bool {
    text.len() == 0 || text == null_text()
}

/// No data, once serialized, reads back as no data.
pub proof fn lemma_no_data_round_trip()
    ensures
        is_null_text(null_text()),
{
}

/// Whether `text` is empty or reads `null`.
pub fn is_null(text: &str) -> (r: bool)
    ensures
        r == is_null_text(text@),
{
    broadcast use vstd::string::is_ascii_spec_bytes;

    if !text.is_ascii() {
        proof {
            assert(!(text@ =~= null_text()));
            assert(text@.len() != 0);
        }
        return false;
    }
    let bytes = text.as_bytes();
    proof {
        assert(bytes@.len() == text@.len());
        assert forall|i: int| 0 <= i < text@.len() implies bytes@[i] == text@[i] as u8 by {}
    }
    if bytes.len() == 0 {
        return true;
    }
    if bytes.len() != 4 {
        return false;
    }
    let r = bytes[0] == 110 && bytes[1] == 117 && bytes[2] == 108 && bytes[3] == 108;
    proof {
        assert(vstd::utf8::is_ascii_chars(text@));
        if r {
            assert forall|i: int| 0 <= i < 4 implies text@[i] == null_text()[i] by {
                assert('\0' <= text@[i] <= '\u{7f}');
            }
            assert(text@ =~= null_text());
        } else {
            if text@ =~= null_text() {
                assert(bytes@[0] == 110 && bytes@[1] == 117 && bytes@[2] == 108 && bytes@[3] == 108);
            }
        }
    }
    r
}

impl<V> ResourceData<V> {
    /// Serializes the data with `encode`; no data is serialized as `null`.
    pub fn ser_with<E, F: FnOnce(&V) -> Result<String, E>>(&self, encode: F) -> (r: Result<String, E>)
        requires
            self.0 matches Some(v) ==> encode.requires((&v,)),
        ensures
            self.0 is None ==> (r matches Ok(s) && s@ == null_text()),
            self.0 matches Some(v) ==> encode.ensures((&v,), r),
    {
        match &self.0 {
            Some(value) => encode(value),
            None => {
                let text = "null";
                proof {
                    reveal_strlit("null");
                }
                Ok(text.to_owned())
            },
        }
    }

    /// Reads data serialized by `ser_with`: an empty text or `null` is no
    /// data, anything else is decoded by `decode`.
    pub fn de_with<E, F: FnOnce(&str) -> Result<V, E>>(text: &str, decode: F) -> (r: Result<
        ResourceData<V>,
        E,
    >)
        requires
            !is_null_text(text@) ==> decode.requires((text,)),
        ensures
            is_null_text(text@) ==> r == Ok::<ResourceData<V>, E>(ResourceData(None)),
            !is_null_text(text@) ==> exists|res: Result<V, E>|
                decode.ensures((text,), res) && match res {
                    Ok(v) => r == Ok::<ResourceData<V>, E>(ResourceData(Some(v))),
                    Err(e) => r == Err::<ResourceData<V>, E>(e),
                },
    {
        if is_null(text) {
            return Ok(ResourceData(None));
        }
        let res = decode(text);
        match res {
            Ok(v) => Ok(ResourceData(Some(v))),
            Err(e) => Err(e),
        }
    }
}

} // verus!
