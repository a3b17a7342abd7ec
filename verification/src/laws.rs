//! The library's laws: properties that hold of every message and every
//! client, stated over the same spec functions that the executable
//! functions' contracts use, and proved once and for all.

use vstd::prelude::*;
use crate::address::EmailAddress;
use crate::client::Mailgun;
use crate::json::{flat_object, lemma_flat_round_trip, lemma_lookup_append, lookup, pairs_view, parse_flat_object};
use crate::message::{join_rendered, role_entries, Message};

verus! {

/// An address built with a display name renders as `name <address>`.
pub proof fn lemma_render_with_name(addr: EmailAddress, n: Seq<char>)
    requires
        addr.name_spec() == Some(n),
    ensures
        addr.render_spec() == n + seq![' ', '<'] + addr.address_spec() + seq!['>'],
{
}

/// An address built without a display name renders as the bare address.
pub proof fn lemma_render_bare(addr: EmailAddress)
    requires
        addr.name_spec() is None,
    ensures
        addr.render_spec() == addr.address_spec(),
{
}

/// Every key that can appear in a message's parameter set, each tied to
/// the condition under which it is emitted.
pub open spec fn possible_param_key(msg: Message, k: Seq<char>) -> bool {
    ||| (k == "to"@ && msg.to@.len() > 0)
    ||| (k == "cc"@ && msg.cc@.len() > 0)
    ||| (k == "bcc"@ && msg.bcc@.len() > 0)
    ||| k == "subject"@
    ||| k == "text"@
    ||| k == "html"@
    ||| (k == "template"@ && msg.template@.len() > 0)
    ||| (k == "h:X-Mailgun-Variables"@ && msg.template@.len() > 0 && msg.template_vars@.len() > 0)
    ||| (k == "h:X-Mailgun-Recipient-Variables"@ && msg.template@.len() > 0 && msg.recipient_vars@.len() > 0)
}

/// A parameter set holds no key beyond the possible ones: a key appears
/// only under its emitting condition.
pub proof fn lemma_params_keys(msg: Message)
    ensures
        forall|j: int| 0 <= j < msg.params_spec().len() ==> possible_param_key(
            msg,
            #[trigger] msg.params_spec()[j].0,
        ),
{
}

/// When all three recipient roles are empty, the parameter set holds no
/// `to`, `cc` or `bcc` key.
pub proof fn lemma_empty_roles_emit_no_keys(msg: Message)
    requires
        msg.to@.len() == 0,
        msg.cc@.len() == 0,
        msg.bcc@.len() == 0,
    ensures
        forall|j: int| 0 <= j < msg.params_spec().len() ==> {
            let k = #[trigger] msg.params_spec()[j].0;
            k != "to"@ && k != "cc"@ && k != "bcc"@
        },
{
    lemma_params_keys(msg);
    proof_key_literals_distinct();
}

/// When the template is empty, no template, template-variable or
/// recipient-variable key appears, whatever the variable maps hold.
pub proof fn lemma_empty_template_emits_no_keys(msg: Message)
    requires
        msg.template@.len() == 0,
    ensures
        forall|j: int| 0 <= j < msg.params_spec().len() ==> {
            let k = #[trigger] msg.params_spec()[j].0;
            k != "template"@ && k != "h:X-Mailgun-Variables"@ && k != "h:X-Mailgun-Recipient-Variables"@
        },
{
    lemma_params_keys(msg);
    proof_key_literals_distinct();
}

/// No parameter of a message is keyed `from`: when a send appends the
/// sender under `from`, it overrides nothing.
pub proof fn lemma_from_key_fresh(msg: Message)
    ensures
        forall|j: int| 0 <= j < msg.params_spec().len() ==> #[trigger] msg.params_spec()[j].0 != "from"@,
{
    lemma_params_keys(msg);
    proof_key_literals_distinct();
}

/// A parameter set never repeats a key: each field is a single joined
/// value, so the form encoding never carries a key twice.
#[verifier::rlimit(100)]
pub proof fn lemma_params_keys_unique(msg: Message)
    ensures
        forall|i: int, j: int| 0 <= i < j < msg.params_spec().len() ==> #[trigger] msg.params_spec()[i].0
            != #[trigger] msg.params_spec()[j].0,
{
    proof_key_literals_distinct();
    let p = msg.params_spec();
    let roles = role_entries("to"@, msg.to@) + role_entries("cc"@, msg.cc@) + role_entries(
        "bcc"@,
        msg.bcc@,
    );
    let fixed = seq![("subject"@, msg.subject@), ("text"@, msg.text@), ("html"@, msg.html@)];
    assert(p =~= roles + fixed + msg.template_entries());
    let a: int = if msg.to@.len() > 0 { 1 } else { 0 };
    let b: int = if msg.cc@.len() > 0 { 1 } else { 0 };
    let c: int = if msg.bcc@.len() > 0 { 1 } else { 0 };
    let t: int = if msg.template@.len() > 0 { 1 } else { 0 };
    let tv: int = if msg.template@.len() > 0 && msg.template_vars@.len() > 0 { 1 } else { 0 };
    let rv: int = if msg.template@.len() > 0 && msg.recipient_vars@.len() > 0 { 1 } else { 0 };
    assert(p.len() == a + b + c + 3 + t + tv + rv);
    assert(a == 1 ==> p[0].0 == "to"@);
    assert(b == 1 ==> p[a].0 == "cc"@);
    assert(c == 1 ==> p[a + b].0 == "bcc"@);
    assert(p[a + b + c].0 == "subject"@);
    assert(p[a + b + c + 1].0 == "text"@);
    assert(p[a + b + c + 2].0 == "html"@);
    assert(t == 1 ==> p[a + b + c + 3].0 == "template"@);
    assert(tv == 1 ==> p[a + b + c + 4].0 == "h:X-Mailgun-Variables"@);
    assert(rv == 1 ==> p[a + b + c + 4 + tv].0 == "h:X-Mailgun-Recipient-Variables"@);
    assert forall|i: int, j: int| 0 <= i < j < p.len() implies p[i].0 != p[j].0 by {
        assert(i < a ==> p[i].0 == "to"@);
        assert(a <= i < a + b ==> p[i].0 == "cc"@);
        assert(a + b <= i < a + b + c ==> p[i].0 == "bcc"@);
        assert(i == a + b + c ==> p[i].0 == "subject"@);
        assert(i == a + b + c + 1 ==> p[i].0 == "text"@);
        assert(i == a + b + c + 2 ==> p[i].0 == "html"@);
        assert(a + b + c + 3 <= i < a + b + c + 3 + t ==> p[i].0 == "template"@);
        assert(a + b + c + 3 + t <= i < a + b + c + 3 + t + tv ==> p[i].0 == "h:X-Mailgun-Variables"@);
        assert(a + b + c + 3 + t + tv <= i ==> p[i].0 == "h:X-Mailgun-Recipient-Variables"@);
        assert(j < a ==> p[j].0 == "to"@);
        assert(a <= j < a + b ==> p[j].0 == "cc"@);
        assert(a + b <= j < a + b + c ==> p[j].0 == "bcc"@);
        assert(j == a + b + c ==> p[j].0 == "subject"@);
        assert(j == a + b + c + 1 ==> p[j].0 == "text"@);
        assert(j == a + b + c + 2 ==> p[j].0 == "html"@);
        assert(a + b + c + 3 <= j < a + b + c + 3 + t ==> p[j].0 == "template"@);
        assert(a + b + c + 3 + t <= j < a + b + c + 3 + t + tv ==> p[j].0 == "h:X-Mailgun-Variables"@);
        assert(a + b + c + 3 + t + tv <= j ==> p[j].0 == "h:X-Mailgun-Recipient-Variables"@);
        assert(i < a || a <= i < a + b || a + b <= i < a + b + c || i == a + b + c
            || i == a + b + c + 1 || i == a + b + c + 2 || a + b + c + 3 <= i < a + b + c + 3 + t
            || a + b + c + 3 + t <= i < a + b + c + 3 + t + tv || a + b + c + 3 + t + tv <= i);
        assert(j < a || a <= j < a + b || a + b <= j < a + b + c || j == a + b + c
            || j == a + b + c + 1 || j == a + b + c + 2 || a + b + c + 3 <= j < a + b + c + 3 + t
            || a + b + c + 3 + t <= j < a + b + c + 3 + t + tv || a + b + c + 3 + t + tv <= j);
        assert(p[i].0 != p[j].0);
    }
}

/// A send's parameter set is the message's own with the sender appended
/// under `from`: the `from` value is the rendered sender, and the first
/// value of every other key is exactly what the message's own parameters
/// give — the sender overrides nothing else.
pub proof fn lemma_sender_always_wins(msg: Message, rendered: Seq<char>)
    ensures
        lookup(msg.params_spec() + seq![("from"@, rendered)], "from"@) == Some(rendered),
        forall|k: Seq<char>| k != "from"@ ==> lookup(
            msg.params_spec() + seq![("from"@, rendered)],
            k,
        ) == lookup(msg.params_spec(), k),
{
    let e = ("from"@, rendered);
    lemma_from_key_fresh(msg);
    lemma_lookup_append(msg.params_spec(), seq![e], "from"@);
    assert(seq![e][0] == e);
    assert forall|k: Seq<char>| k != "from"@ implies lookup(msg.params_spec() + seq![e], k)
        == lookup(msg.params_spec(), k) by {
        assert(msg.params_spec().push(e) =~= msg.params_spec() + seq![e]);
        crate::json::lemma_lookup_snoc_other(msg.params_spec(), e, k);
    }
}

/// When `to` is non-empty, the parameter set's first `to` value is the
/// rendered addresses joined with commas.
pub proof fn lemma_to_value(msg: Message)
    requires
        msg.to@.len() > 0,
    ensures
        lookup(msg.params_spec(), "to"@) == Some(join_rendered(msg.to@)),
{
    let p = msg.params_spec();
    assert(p[0] == ("to"@, join_rendered(msg.to@)));
}

/// With a non-empty template and non-empty template variables, the
/// variables header carries the JSON text of the variables, and parsing
/// that text back recovers them exactly.
pub proof fn lemma_template_vars_round_trip(msg: Message)
    requires
        msg.template@.len() > 0,
        msg.template_vars@.len() > 0,
    ensures
        lookup(msg.params_spec(), "h:X-Mailgun-Variables"@) == Some(
            flat_object(pairs_view(msg.template_vars@)),
        ),
        parse_flat_object(flat_object(pairs_view(msg.template_vars@))) == Some(
            pairs_view(msg.template_vars@),
        ),
{
    proof_key_literals_distinct();
    let hk = "h:X-Mailgun-Variables"@;
    let pre = role_entries("to"@, msg.to@) + role_entries("cc"@, msg.cc@) + role_entries("bcc"@, msg.bcc@)
        + seq![("subject"@, msg.subject@), ("text"@, msg.text@), ("html"@, msg.html@)]
        + seq![("template"@, msg.template@)];
    let hvars = seq![(hk, flat_object(pairs_view(msg.template_vars@)))];
    let post = if msg.recipient_vars@.len() == 0 { hvars } else {
        hvars + seq![("h:X-Mailgun-Recipient-Variables"@, crate::json::nested_object(crate::json::nested_view(msg.recipient_vars@)))]
    };
    assert(msg.params_spec() =~= pre + post);
    assert(forall|j: int| 0 <= j < pre.len() ==> #[trigger] pre[j].0 != hk);
    lemma_lookup_append(pre, post, hk);
    assert(post[0] == (hk, flat_object(pairs_view(msg.template_vars@))));
    lemma_flat_round_trip(pairs_view(msg.template_vars@));
}

/// Changing the zone changes only the base component of the composed
/// URL: the `/domain/messages` suffix is the same whatever the zone, and
/// the URL is always the base followed by that suffix.
pub proof fn lemma_zone_changes_only_base(a: Mailgun, b: Mailgun)
    requires
        a.domain@ == b.domain@,
    ensures
        a.url_spec() == a.base_spec() + a.url_suffix(),
        b.url_spec() == b.base_spec() + b.url_suffix(),
        a.url_suffix() == b.url_suffix(),
{
}

/// The key literals of the parameter set, and `from`, are pairwise
/// distinct pieces of text.
proof fn proof_key_literals_distinct()
    ensures
        "to"@ != "cc"@ && "to"@ != "bcc"@ && "cc"@ != "bcc"@,
        "subject"@ != "to"@ && "subject"@ != "cc"@ && "subject"@ != "bcc"@,
        "text"@ != "to"@ && "text"@ != "cc"@ && "text"@ != "bcc"@,
        "html"@ != "to"@ && "html"@ != "cc"@ && "html"@ != "bcc"@,
        "template"@ != "to"@ && "template"@ != "cc"@ && "template"@ != "bcc"@,
        "h:X-Mailgun-Variables"@ != "to"@ && "h:X-Mailgun-Variables"@ != "cc"@
            && "h:X-Mailgun-Variables"@ != "bcc"@,
        "h:X-Mailgun-Recipient-Variables"@ != "to"@ && "h:X-Mailgun-Recipient-Variables"@ != "cc"@
            && "h:X-Mailgun-Recipient-Variables"@ != "bcc"@,
        "subject"@ != "text"@ && "subject"@ != "html"@ && "text"@ != "html"@,
        "template"@ != "subject"@ && "template"@ != "text"@ && "template"@ != "html"@,
        "h:X-Mailgun-Variables"@ != "subject"@ && "h:X-Mailgun-Variables"@ != "text"@
            && "h:X-Mailgun-Variables"@ != "html"@ && "h:X-Mailgun-Variables"@ != "template"@,
        "h:X-Mailgun-Recipient-Variables"@ != "subject"@ && "h:X-Mailgun-Recipient-Variables"@ != "text"@
            && "h:X-Mailgun-Recipient-Variables"@ != "html"@
            && "h:X-Mailgun-Recipient-Variables"@ != "template"@
            && "h:X-Mailgun-Recipient-Variables"@ != "h:X-Mailgun-Variables"@,
        "from"@ != "to"@ && "from"@ != "cc"@ && "from"@ != "bcc"@ && "from"@ != "subject"@
            && "from"@ != "text"@ && "from"@ != "html"@ && "from"@ != "template"@
            && "from"@ != "h:X-Mailgun-Variables"@ && "from"@ != "h:X-Mailgun-Recipient-Variables"@,
{
    reveal_strlit("to");
    reveal_strlit("cc");
    reveal_strlit("bcc");
    reveal_strlit("subject");
    reveal_strlit("text");
    reveal_strlit("html");
    reveal_strlit("template");
    reveal_strlit("h:X-Mailgun-Variables");
    reveal_strlit("h:X-Mailgun-Recipient-Variables");
    reveal_strlit("from");
    assert("to"@.len() == 2 && "cc"@.len() == 2 && "bcc"@.len() == 3);
    assert("subject"@.len() == 7 && "text"@.len() == 4 && "html"@.len() == 4);
    assert("template"@.len() == 8 && "from"@.len() == 4);
    assert("h:X-Mailgun-Variables"@.len() == 21);
    assert("h:X-Mailgun-Recipient-Variables"@.len() == 31);
    assert("to"@[0] == 't' && "cc"@[0] == 'c');
    assert("text"@[0] == 't' && "html"@[0] == 'h' && "from"@[0] == 'f');
}

} // verus!
