//! Email addresses with an optional display name.

use vstd::prelude::*;

verus! {

/// One addressable sender or recipient: a bare address, optionally paired
/// with a display name. Immutable once constructed.
pub struct EmailAddress {
    name: Option<String>,
    address: String,
}

impl EmailAddress {
    /// The display name, if one was given.
    pub closed spec fn name_spec(&self) -> Option<Seq<char>> {
        match self.name {
            Some(ref n) => Some(n@),
            None => None,
        }
    }

    /// The bare address text.
    pub closed spec fn address_spec(&self) -> Seq<char> {
        self.address@
    }

    /// The provider's text form: `name <address>` when a display name is
    /// present, otherwise the bare address.
    pub open spec fn render_spec(&self) -> Seq<char> {
        match self.name_spec() {
            Some(n) => n + seq![' ', '<'] + self.address_spec() + seq!['>'],
            None => self.address_spec(),
        }
    }

    /// Construct an address with no display name.
    pub fn address(address: &str) -> (r: Self)
        ensures
            r.name_spec() is None,
            r.address_spec() == address@,
    {
        EmailAddress { name: None, address: address.to_owned() }
    }

    /// Construct an address with a display name.
    pub fn name_address(name: &str, address: &str) -> (r: Self)
        ensures
            r.name_spec() == Some(name@),
            r.address_spec() == address@,
    {
        EmailAddress { name: Some(name.to_owned()), address: address.to_owned() }
    }

    /// Render to the provider's expected text form.
    pub fn render(&self) -> (r: String)
        ensures
            r@ == self.render_spec(),
    {
        match self.name {
            Some(ref n) => {
                let mut out = n.clone();
                out.append(" <");
                out.append(self.address.as_str());
                out.append(">");
                proof {
                    reveal_strlit(" <");
                    reveal_strlit(">");
                    assert(out@ =~= self.render_spec());
                }
                out
            },
            None => self.address.clone(),
        }
    }
}

} // verus!
