//! The logical content of an email, and its flattening into the flat
//! string-keyed parameter set that the provider's form-encoded request
//! carries.

use vstd::prelude::*;
use crate::address::EmailAddress;
use crate::json::{flat_object, nested_object, pairs_view, nested_view, flat_json, nested_json};
use crate::json::{keys_unique, keys_unique_exec, nested_keys_unique, nested_keys_unique_exec};
use crate::json::{upsert, lemma_upsert_absent, lemma_upsert_at_first, pair_view};

verus! {

/// The rendered addresses joined with a comma separator.
pub open spec fn join_rendered(addrs: Seq<EmailAddress>) -> Seq<char>
    decreases addrs.len(),
{
    if addrs.len() == 0 {
        Seq::empty()
    } else if addrs.len() == 1 {
        addrs[0].render_spec()
    } else {
        addrs[0].render_spec() + seq![','] + join_rendered(addrs.drop_first())
    }
}

/// The parameter entries for one recipient role: nothing when the role is
/// empty, else a single entry holding the joined rendered addresses.
pub open spec fn role_entries(key: Seq<char>, addrs: Seq<EmailAddress>) -> Seq<(Seq<char>, Seq<char>)> {
    if addrs.len() == 0 {
        Seq::empty()
    } else {
        seq![(key, join_rendered(addrs))]
    }
}

/// The full logical content of an email. Empty strings mean "not set";
/// `template_vars` and `recipient_vars` take effect only when `template`
/// is non-empty.
pub struct Message {
    pub to: Vec<EmailAddress>,
    pub cc: Vec<EmailAddress>,
    pub bcc: Vec<EmailAddress>,
    pub subject: String,
    pub text: String,
    pub html: String,
    pub template: String,
    pub template_vars: Vec<(String, String)>,
    pub recipient_vars: Vec<(String, Vec<(String, String)>)>,
}

impl Message {
    /// The variable maps really are mappings: `template_vars` holds no
    /// key twice, and `recipient_vars` holds no address twice nor any
    /// inner variable name twice. A map-backed message always has this;
    /// it keeps the serialized JSON objects free of repeated members.
    pub open spec fn wf(&self) -> bool {
        &&& keys_unique(pairs_view(self.template_vars@))
        &&& nested_keys_unique(nested_view(self.recipient_vars@))
    }

    /// Whether the variable maps carry distinct keys (see [`Self::wf`]).
    pub fn is_wf(&self) -> (r: bool)
        ensures
            r == self.wf(),
    {
        keys_unique_exec(&self.template_vars) && nested_keys_unique_exec(&self.recipient_vars)
    }

    /// The template-related entries: nothing at all when `template` is
    /// empty, even if variables are populated.
    pub open spec fn template_entries(&self) -> Seq<(Seq<char>, Seq<char>)> {
        if self.template@.len() == 0 {
            Seq::empty()
        } else {
            seq![("template"@, self.template@)]
            + (if self.template_vars@.len() == 0 { Seq::<(Seq<char>, Seq<char>)>::empty() } else {
                seq![("h:X-Mailgun-Variables"@, flat_object(pairs_view(self.template_vars@)))]
            })
            + (if self.recipient_vars@.len() == 0 { Seq::<(Seq<char>, Seq<char>)>::empty() } else {
                seq![("h:X-Mailgun-Recipient-Variables"@, nested_object(nested_view(self.recipient_vars@)))]
            })
        }
    }

    /// The flat parameter set of the message, in the order emitted: the
    /// non-empty recipient roles, then subject, text and html (always
    /// present), then the template entries.
    pub open spec fn params_spec(&self) -> Seq<(Seq<char>, Seq<char>)> {
        role_entries("to"@, self.to@) + role_entries("cc"@, self.cc@) + role_entries("bcc"@, self.bcc@)
        + seq![("subject"@, self.subject@), ("text"@, self.text@), ("html"@, self.html@)]
        + self.template_entries()
    }

    /// Flatten the message into the provider's parameter set. Pure, and
    /// total on well-formed messages: empty roles and an empty template
    /// simply produce no entries.
    pub fn params(&self) -> (r: Vec<(String, String)>)
        requires
            self.wf(),
        ensures
            pairs_view(r@) == self.params_spec(),
    {
        let ghost role_to = role_entries("to"@, self.to@);
        let ghost role_cc = role_entries("cc"@, self.cc@);
        let ghost role_bcc = role_entries("bcc"@, self.bcc@);
        let mut params: Vec<(String, String)> = Vec::new();
        proof {
            assert(pairs_view(params@) =~= Seq::<(Seq<char>, Seq<char>)>::empty());
        }
        Message::add_recipients("to", &self.to, &mut params);
        proof {
            if self.to@.len() > 0 {
                assert(pairs_view(params@) =~= role_to);
            }
            assert(pairs_view(params@) =~= role_to);
        }
        Message::add_recipients("cc", &self.cc, &mut params);
        proof {
            role_literals_distinct();
            if self.cc@.len() > 0 {
                lemma_upsert_absent(role_to, "cc"@, join_rendered(self.cc@));
            }
            assert(pairs_view(params@) =~= role_to + role_cc);
        }
        Message::add_recipients("bcc", &self.bcc, &mut params);
        proof {
            role_literals_distinct();
            if self.bcc@.len() > 0 {
                assert(forall|j: int| 0 <= j < (role_to + role_cc).len() ==> (#[trigger] (role_to
                    + role_cc)[j]).0 != "bcc"@);
                lemma_upsert_absent(role_to + role_cc, "bcc"@, join_rendered(self.bcc@));
            }
            assert(pairs_view(params@) =~= role_to + role_cc + role_bcc);
        }
        params.push((String::from_str("subject"), self.subject.clone()));
        params.push((String::from_str("text"), self.text.clone()));
        params.push((String::from_str("html"), self.html.clone()));
        if !self.template.as_str().is_empty() {
            params.push((String::from_str("template"), self.template.clone()));
            if self.template_vars.len() != 0 {
                params.push((String::from_str("h:X-Mailgun-Variables"), flat_json(&self.template_vars)));
            }
            if self.recipient_vars.len() != 0 {
                params.push((String::from_str("h:X-Mailgun-Recipient-Variables"), nested_json(&self.recipient_vars)));
            }
        }
        proof {
            assert(pairs_view(params@) =~= self.params_spec());
        }
        params
    }

    /// Store one recipient role: when the role is non-empty, bind its
    /// name to the joined rendered addresses, replacing an existing
    /// binding of that name and leaving every other entry unchanged (a
    /// map insert); when the role is empty, change nothing.
    pub fn add_recipients(field: &str, addresses: &Vec<EmailAddress>, params: &mut Vec<(String, String)>)
        ensures
            addresses@.len() == 0 ==> final(params)@ == old(params)@,
            addresses@.len() > 0 ==> pairs_view(final(params)@) == upsert(
                pairs_view(old(params)@),
                field@,
                join_rendered(addresses@),
            ),
    {
        if addresses.len() == 0 {
            return;
        }
        let joined = join_exec(addresses, 0);
        proof {
            assert(addresses@.skip(0) =~= addresses@);
        }
        let key = String::from_str(field);
        let ghost value = join_rendered(addresses@);
        match find_key(params, &key, 0) {
            None => {
                params.push((key, joined));
                proof {
                    lemma_upsert_absent(pairs_view(old(params)@), field@, value);
                    assert(pairs_view(params@) =~= pairs_view(old(params)@) + seq![(field@, value)]);
                }
            },
            Some(i) => {
                params.remove(i);
                params.insert(i, (key, joined));
                proof {
                    lemma_upsert_at_first(pairs_view(old(params)@), field@, value, i as int);
                    assert(params@ =~= old(params)@.update(i as int, (key, joined)));
                    assert(pairs_view(params@) =~= pairs_view(old(params)@).update(
                        i as int,
                        (field@, value),
                    ));
                }
            },
        }
    }
}

/// The first index at or after `i` whose entry is keyed `key`, if any.
fn find_key(params: &Vec<(String, String)>, key: &String, i: usize) -> (r: Option<usize>)
    requires
        i <= params.len(),
    ensures
        match r {
            None => forall|j: int| i <= j < params@.len() ==> pairs_view(params@)[j].0 != key@,
            Some(idx) => i <= idx < params@.len() && pairs_view(params@)[idx as int].0 == key@
                && forall|j: int| i <= j < idx ==> pairs_view(params@)[j].0 != key@,
        },
    decreases params.len() - i,
{
    if i == params.len() {
        return None;
    }
    proof {
        assert(pairs_view(params@)[i as int] == pair_view(params@[i as int]));
    }
    if params[i].0 == *key {
        Some(i)
    } else {
        find_key(params, key, i + 1)
    }
}

/// The three role names are pairwise distinct pieces of text.
proof fn role_literals_distinct()
    ensures
        "to"@ != "cc"@ && "to"@ != "bcc"@ && "cc"@ != "bcc"@,
{
    reveal_strlit("to");
    reveal_strlit("cc");
    reveal_strlit("bcc");
    assert("to"@.len() == 2 && "cc"@.len() == 2 && "bcc"@.len() == 3);
    assert("to"@[0] == 't' && "cc"@[0] == 'c');
}

impl Default for Message {
    /// A message with every field unset.
    fn default() -> (r: Self)
        ensures
            r.to@ =~= Seq::<EmailAddress>::empty(),
            r.cc@ =~= Seq::<EmailAddress>::empty(),
            r.bcc@ =~= Seq::<EmailAddress>::empty(),
            r.subject@ =~= Seq::<char>::empty(),
            r.text@ =~= Seq::<char>::empty(),
            r.html@ =~= Seq::<char>::empty(),
            r.template@ =~= Seq::<char>::empty(),
            r.template_vars@ =~= Seq::<(String, String)>::empty(),
            r.recipient_vars@ =~= Seq::<(String, Vec<(String, String)>)>::empty(),
    {
        Message {
            to: Vec::new(),
            cc: Vec::new(),
            bcc: Vec::new(),
            subject: String::new(),
            text: String::new(),
            html: String::new(),
            template: String::new(),
            template_vars: Vec::new(),
            recipient_vars: Vec::new(),
        }
    }
}

fn join_exec(addresses: &Vec<EmailAddress>, i: usize) -> (r: String)
    requires
        i <= addresses.len(),
    ensures
        r@ == join_rendered(addresses@.skip(i as int)),
    decreases addresses.len() - i,
{
    let ghost m = addresses@.skip(i as int);
    if i == addresses.len() {
        let empty = String::new();
        proof {
            assert(m =~= Seq::<EmailAddress>::empty());
            assert(empty@ =~= join_rendered(m));
        }
        return empty;
    }
    proof {
        assert(m[0] == addresses@[i as int]);
    }
    let mut out = addresses[i].render();
    if i + 1 < addresses.len() {
        out.append(",");
        let rest = join_exec(addresses, i + 1);
        out.append(rest.as_str());
        proof {
            reveal_strlit(",");
            assert(","@ =~= seq![',']);
            assert(m.drop_first() =~= addresses@.skip(i + 1));
            assert(out@ =~= join_rendered(m));
        }
    } else {
        proof {
            assert(m.len() == 1);
        }
    }
    out
}

} // verus!
