//! Telling someone by email what a scan found.
use vstd::prelude::*;
use std::str::FromStr;
use lettre::message::{Mailbox, MessageBuilder};
use lettre::Message;
use crate::results::PortStatusRecord;
use crate::text::{decimal, is_digit, lemma_decimal_digits, signed_decimal, signed_decimal_string};

verus! {

/// Where and how to send the results by email.
#[derive(Clone, Debug)]
pub struct EmailConfig {
    pub smtp_server: String,
    pub smtp_port: u16,
    pub smtp_username: String,
    pub smtp_password: String,
    pub from: String,
    pub to: String,
    pub subject: String,
}

/// One record's line in the email: address, protocol, port, status and
/// reason, ended by a newline.
pub open spec fn email_line(r: PortStatusRecord) -> Seq<char> {
    r.ip@ + seq![' '] + r.proto@ + seq![' '] + signed_decimal(r.port as int) + " status="@
        + r.status@ + " reason="@ + r.reason@ + seq!['\n']
}

/// The records' lines, one after another.
pub open spec fn email_lines(rows: Seq<PortStatusRecord>) -> Seq<char>
    decreases rows.len(),
{
    if rows.len() == 0 {
        Seq::empty()
    } else {
        email_lines(rows.drop_last()) + email_line(rows.last())
    }
}

/// The text of the results email: a fixed sentence when there is no
/// record, else a heading and then one line per record, in order.
pub open spec fn email_body(rows: Seq<PortStatusRecord>) -> Seq<char> {
    if rows.len() == 0 {
        "No open ports found for requested targets."@
    } else {
        "Open ports detected:\n\n"@ + email_lines(rows)
    }
}

/// The text of the results email for `rows`.
pub fn build_email_body(rows: &[PortStatusRecord]) -> (r: String)
    ensures
        r@ == email_body(rows@),
{
    if rows.len() == 0 {
        return "No open ports found for requested targets.".to_owned();
    }
    let mut body = "Open ports detected:\n\n".to_owned();
    let mut i: usize = 0;
    proof {
        assert(rows@.take(0) =~= Seq::<PortStatusRecord>::empty());
        reveal_strlit(" ");
        reveal_strlit("\n");
    }
    while i < rows.len()
        invariant
            i <= rows@.len(),
            body@ == "Open ports detected:\n\n"@ + email_lines(rows@.take(i as int)),
        decreases rows.len() - i,
    {
        let row = &rows[i];
        let ghost before = body@;
        body.append(row.ip.as_str());
        body.append(" ");
        body.append(row.proto.as_str());
        body.append(" ");
        body.append(signed_decimal_string(row.port as i64).as_str());
        body.append(" status=");
        body.append(row.status.as_str());
        body.append(" reason=");
        body.append(row.reason.as_str());
        body.append("\n");
        proof {
            reveal_strlit(" ");
            reveal_strlit("\n");
            assert(rows@.take(i + 1).drop_last() =~= rows@.take(i as int));
            assert(body@ =~= before + email_line(rows@[i as int]));
        }
        i = i + 1;
    }
    assert(rows@.take(i as int) =~= rows@);
    body
}


#[verifier::external_type_specification]
#[verifier::external_body]
pub struct ExMailbox(lettre::message::Mailbox);

#[verifier::external_type_specification]
#[verifier::external_body]
pub struct ExMessageBuilder(lettre::message::MessageBuilder);

#[verifier::external_type_specification]
#[verifier::external_body]
pub struct ExMessage(lettre::Message);

/// Why lettre refuses `text` as a mailbox (`None` when it accepts it).
pub uninterp spec fn mailbox_refusal(text: Seq<char>) -> Option<Seq<char>>;

/// A mailbox that lettre accepted, with the text it was read from.
pub struct ParsedMailbox {
    mailbox: Mailbox,
    text: Ghost<Seq<char>>,
}

impl View for ParsedMailbox {
    type V = Seq<char>;

    closed spec fn view(&self) -> Seq<char> {
        self.text@
    }
}

/// A message being built: lettre's builder, with the `From` and `To`
/// mailboxes (by the text each was read from) and the subject handed to it
/// so far.
pub struct Draft {
    builder: MessageBuilder,
    from: Ghost<Seq<Seq<char>>>,
    to: Ghost<Seq<Seq<char>>>,
    subject: Ghost<Option<Seq<char>>>,
}

impl Draft {
    /// The `From` mailboxes handed over, in order.
    pub closed spec fn senders(&self) -> Seq<Seq<char>> {
        self.from@
    }

    /// The `To` mailboxes handed over, in order.
    pub closed spec fn recipients(&self) -> Seq<Seq<char>> {
        self.to@
    }

    /// The subject handed over, if any.
    pub closed spec fn subject(&self) -> Option<Seq<char>> {
        self.subject@
    }
}

/// A finished message, with what it was built from: its `From` and `To`
/// mailboxes, its subject and the text of its body.
pub struct Email {
    message: Message,
    from: Ghost<Seq<Seq<char>>>,
    to: Ghost<Seq<Seq<char>>>,
    subject: Ghost<Option<Seq<char>>>,
    body: Ghost<Seq<char>>,
}

impl Email {
    /// The `From` mailboxes, by the text each was read from.
    pub closed spec fn senders(&self) -> Seq<Seq<char>> {
        self.from@
    }

    /// The `To` mailboxes, by the text each was read from.
    pub closed spec fn recipients(&self) -> Seq<Seq<char>> {
        self.to@
    }

    /// The subject, if one was set.
    pub closed spec fn subject(&self) -> Option<Seq<char>> {
        self.subject@
    }

    /// The text of the body.
    pub closed spec fn body(&self) -> Seq<char> {
        self.body@
    }

    /// lettre's message, ready to hand to a transport.
    pub fn message(&self) -> &Message {
        &self.message
    }
}

/// Reads `text` as a mailbox with lettre's `Mailbox::from_str`; a refusal
/// comes back as the error's text. Whether it is refused, and with which
/// text, depends on `text` alone.
#[verifier::external_body]
fn parse_mailbox(text: &str) -> (r: Result<ParsedMailbox, String>)
    ensures
        match r {
            Ok(m) => mailbox_refusal(text@) is None && m@ == text@,
            Err(e) => mailbox_refusal(text@) == Some(e@),
        },
{
    match Mailbox::from_str(text) {
        Ok(mailbox) => Ok(ParsedMailbox { mailbox, text: Ghost(text@) }),
        Err(err) => Err(err.to_string()),
    }
}

/// lettre's `Message::builder`: a builder with no header set.
#[verifier::external_body]
fn message_builder() -> (r: Draft)
    ensures
        r.senders() == Seq::<Seq<char>>::empty(),
        r.recipients() == Seq::<Seq<char>>::empty(),
        r.subject() is None,
{
    Draft {
        builder: Message::builder(),
        from: Ghost(Seq::empty()),
        to: Ghost(Seq::empty()),
        subject: Ghost(None),
    }
}

/// lettre's `MessageBuilder::from`: adds `mailbox` to the `From` header.
#[verifier::external_body]
fn with_from(draft: Draft, mailbox: ParsedMailbox) -> (r: Draft)
    ensures
        r.senders() == draft.senders().push(mailbox@),
        r.recipients() == draft.recipients(),
        r.subject() == draft.subject(),
{
    Draft {
        builder: draft.builder.from(mailbox.mailbox),
        from: Ghost(draft.from@.push(mailbox@)),
        to: draft.to,
        subject: draft.subject,
    }
}

/// lettre's `MessageBuilder::to`: adds `mailbox` to the `To` header.
#[verifier::external_body]
fn with_to(draft: Draft, mailbox: ParsedMailbox) -> (r: Draft)
    ensures
        r.senders() == draft.senders(),
        r.recipients() == draft.recipients().push(mailbox@),
        r.subject() == draft.subject(),
{
    Draft {
        builder: draft.builder.to(mailbox.mailbox),
        from: draft.from,
        to: Ghost(draft.to@.push(mailbox@)),
        subject: draft.subject,
    }
}

/// lettre's `MessageBuilder::subject`: sets the `Subject` header.
#[verifier::external_body]
fn with_subject(draft: Draft, subject: &str) -> (r: Draft)
    ensures
        r.senders() == draft.senders(),
        r.recipients() == draft.recipients(),
        r.subject() == Some(subject@),
{
    Draft {
        builder: draft.builder.subject(subject),
        from: draft.from,
        to: draft.to,
        subject: Ghost(Some(subject@)),
    }
}

/// lettre's `MessageBuilder::body`: the finished message with `body` as its
/// text. lettre refuses to build only when there is no `From` mailbox, more
/// than one without a `Sender` header, or no recipient; with exactly one
/// `From` mailbox and at least one `To` mailbox it always succeeds.
#[verifier::external_body]
fn with_body(draft: Draft, body: String) -> (r: Result<Email, String>)
    requires
        draft.senders().len() == 1,
        draft.recipients().len() >= 1,
    ensures
        r is Ok,
        r matches Ok(e) ==> e.senders() == draft.senders() && e.recipients() == draft.recipients()
            && e.subject() == draft.subject() && e.body() == body@,
{
    let text = Ghost(body@);
    match draft.builder.body(body) {
        Ok(message) => Ok(
            Email { message, from: draft.from, to: draft.to, subject: draft.subject, body: text },
        ),
        Err(err) => Err(err.to_string()),
    }
}

/// The complaint about an address that lettre refused.
pub open spec fn address_complaint(role: Seq<char>, address: Seq<char>, reason: Seq<char>) -> Seq<
    char,
> {
    "invalid "@ + role + " email '"@ + address + "': "@ + reason
}

fn complain_about_address(role: &str, address: &str, reason: &str) -> (r: String)
    ensures
        r@ == address_complaint(role@, address@, reason@),
{
    let mut s = "invalid ".to_owned();
    s.append(role);
    s.append(" email '");
    s.append(address);
    s.append("': ");
    s.append(reason);
    s
}

/// The results email for `rows`: from `config.from` to `config.to` under
/// `config.subject`, whose text is the body that `build_email_body(rows)`
/// gives. A sender that lettre refuses is reported first, then a refused
/// recipient; with both accepted the message is always built.
pub fn compose_email(config: &EmailConfig, rows: &[PortStatusRecord]) -> (r: Result<
    Email,
    String,
>)
    ensures
        mailbox_refusal(config.from@) is Some ==> (r matches Err(m) && m@ == address_complaint(
            "sender"@,
            config.from@,
            mailbox_refusal(config.from@)->0,
        )),
        mailbox_refusal(config.from@) is None && mailbox_refusal(config.to@) is Some ==> (r matches Err(
            m,
        ) && m@ == address_complaint("recipient"@, config.to@, mailbox_refusal(config.to@)->0)),
        mailbox_refusal(config.from@) is None && mailbox_refusal(config.to@) is None ==> r is Ok,
        r matches Ok(e) ==> e.senders() == seq![config.from@] && e.recipients() == seq![config.to@]
            && e.subject() == Some(config.subject@) && e.body() == email_body(rows@),
{
    let from = match parse_mailbox(config.from.as_str()) {
        Ok(mailbox) => mailbox,
        Err(reason) => {
            return Err(complain_about_address("sender", config.from.as_str(), reason.as_str()));
        },
    };
    let to = match parse_mailbox(config.to.as_str()) {
        Ok(mailbox) => mailbox,
        Err(reason) => {
            return Err(complain_about_address("recipient", config.to.as_str(), reason.as_str()));
        },
    };
    let body = build_email_body(rows);
    let draft = with_subject(
        with_to(with_from(message_builder(), from), to),
        config.subject.as_str(),
    );
    assert(draft.senders() =~= seq![config.from@]);
    assert(draft.recipients() =~= seq![config.to@]);
    with_body(draft, body)
}


/// Putting two lists of records together puts their lines together: each
/// record has its own line, whatever the records around it.
pub proof fn lemma_email_lines_concat(a: Seq<PortStatusRecord>, b: Seq<PortStatusRecord>)
    ensures
        email_lines(a + b) == email_lines(a) + email_lines(b),
    decreases b.len(),
{
    if b.len() == 0 {
        assert(a + b =~= a);
        assert(email_lines(a) + Seq::<char>::empty() =~= email_lines(a));
    } else {
        lemma_email_lines_concat(a, b.drop_last());
        assert((a + b).drop_last() =~= a + b.drop_last());
        assert((a + b).last() == b.last());
        assert(email_lines(a + b.drop_last()) + email_line(b.last()) =~= email_lines(a) + (
        email_lines(b.drop_last()) + email_line(b.last())));
    }
}

/// One record gives exactly its own line.
pub proof fn lemma_email_lines_single(r: PortStatusRecord)
    ensures
        email_lines(seq![r]) == email_line(r),
{
    assert(seq![r].drop_last() =~= Seq::<PortStatusRecord>::empty());
    assert(email_lines(Seq::<PortStatusRecord>::empty()) == Seq::<char>::empty());
    assert(seq![r].last() == r);
    assert(Seq::<char>::empty() + email_line(r) =~= email_line(r));
}

/// The body of an email with records is the heading and then, for every
/// record in order, its line: the line of record `i` stands between the
/// lines of the records before it and those after it.
pub proof fn lemma_email_body_lists_every_row(rows: Seq<PortStatusRecord>, i: int)
    requires
        0 <= i < rows.len(),
    ensures
        email_body(rows) == "Open ports detected:\n\n"@ + email_lines(rows.take(i)) + email_line(
            rows[i],
        ) + email_lines(rows.skip(i + 1)),
{
    let before = rows.take(i);
    let after = rows.skip(i + 1);
    assert(rows =~= before + seq![rows[i]] + after);
    lemma_email_lines_concat(before + seq![rows[i]], after);
    lemma_email_lines_concat(before, seq![rows[i]]);
    lemma_email_lines_single(rows[i]);
    assert("Open ports detected:\n\n"@ + email_lines(rows) =~= "Open ports detected:\n\n"@
        + email_lines(before) + email_line(rows[i]) + email_lines(after));
}

/// How many newline characters `s` holds.
pub open spec fn newlines(s: Seq<char>) -> nat
    decreases s.len(),
{
    if s.len() == 0 {
        0
    } else {
        newlines(s.drop_last()) + if s.last() == '\n' {
            1nat
        } else {
            0nat
        }
    }
}

proof fn lemma_newlines_concat(a: Seq<char>, b: Seq<char>)
    ensures
        newlines(a + b) == newlines(a) + newlines(b),
    decreases b.len(),
{
    if b.len() == 0 {
        assert(a + b =~= a);
    } else {
        lemma_newlines_concat(a, b.drop_last());
        assert((a + b).drop_last() =~= a + b.drop_last());
        assert((a + b).last() == b.last());
    }
}

proof fn lemma_no_newlines(s: Seq<char>)
    requires
        forall|i: int| 0 <= i < s.len() ==> #[trigger] s[i] != '\n',
    ensures
        newlines(s) == 0,
    decreases s.len(),
{
    if s.len() > 0 {
        let t = s.drop_last();
        assert forall|i: int| 0 <= i < t.len() implies #[trigger] t[i] != '\n' by {
            assert(t[i] == s[i]);
        }
        lemma_no_newlines(t);
        assert(s[s.len() - 1] != '\n');
    }
}

/// Whether a text holds no newline character.
pub open spec fn single_line(s: Seq<char>) -> bool {
    forall|i: int| 0 <= i < s.len() ==> #[trigger] s[i] != '\n'
}

proof fn lemma_email_line_newlines(r: PortStatusRecord)
    requires
        single_line(r.ip@),
        single_line(r.proto@),
        single_line(r.status@),
        single_line(r.reason@),
    ensures
        newlines(email_line(r)) == 1,
{
    reveal_strlit(" status=");
    reveal_strlit(" reason=");
    let port = signed_decimal(r.port as int);
    let m = if r.port < 0 {
        -(r.port as int)
    } else {
        r.port as int
    };
    lemma_decimal_digits(m as nat);
    assert('\n' as u32 == 0x0a);
    assert('-' as u32 == 0x2d);
    assert forall|i: int| 0 <= i < port.len() implies #[trigger] port[i] != '\n' by {
        if r.port < 0 {
            if i > 0 {
                assert(port[i] == decimal(m as nat)[i - 1]);
                assert(is_digit(decimal(m as nat)[i - 1]));
            }
        } else {
            assert(is_digit(decimal(m as nat)[i]));
        }
    }
    lemma_no_newlines(r.ip@);
    lemma_no_newlines(r.proto@);
    lemma_no_newlines(port);
    lemma_no_newlines(r.status@);
    lemma_no_newlines(r.reason@);
    lemma_no_newlines(seq![' ']);
    lemma_no_newlines(" status="@);
    lemma_no_newlines(" reason="@);
    let p1 = r.ip@ + seq![' '];
    let p2 = p1 + r.proto@;
    let p3 = p2 + seq![' '];
    let p4 = p3 + port;
    let p5 = p4 + " status="@;
    let p6 = p5 + r.status@;
    let p7 = p6 + " reason="@;
    let p8 = p7 + r.reason@;
    lemma_newlines_concat(r.ip@, seq![' ']);
    lemma_newlines_concat(p1, r.proto@);
    lemma_newlines_concat(p2, seq![' ']);
    lemma_newlines_concat(p3, port);
    lemma_newlines_concat(p4, " status="@);
    lemma_newlines_concat(p5, r.status@);
    lemma_newlines_concat(p6, " reason="@);
    lemma_newlines_concat(p7, r.reason@);
    lemma_newlines_concat(p8, seq!['\n']);
    assert(seq!['\n'].drop_last() =~= Seq::<char>::empty());
    assert(newlines(Seq::<char>::empty()) == 0);
    assert(seq!['\n'].last() == '\n');
    assert(newlines(seq!['\n']) == 1);
    assert(email_line(r) == p8 + seq!['\n']);
}

proof fn lemma_email_lines_newlines(rows: Seq<PortStatusRecord>)
    requires
        forall|i: int|
            0 <= i < rows.len() ==> {
                &&& single_line((#[trigger] rows[i]).ip@)
                &&& single_line(rows[i].proto@)
                &&& single_line(rows[i].status@)
                &&& single_line(rows[i].reason@)
            },
    ensures
        newlines(email_lines(rows)) == rows.len(),
    decreases rows.len(),
{
    if rows.len() > 0 {
        let init = rows.drop_last();
        assert forall|i: int| 0 <= i < init.len() implies {
            &&& single_line((#[trigger] init[i]).ip@)
            &&& single_line(init[i].proto@)
            &&& single_line(init[i].status@)
            &&& single_line(init[i].reason@)
        } by {
            assert(init[i] == rows[i]);
        }
        lemma_email_lines_newlines(init);
        assert(rows[rows.len() - 1] == rows.last());
        lemma_email_line_newlines(rows.last());
        lemma_newlines_concat(email_lines(init), email_line(rows.last()));
    }
}

/// An email with records has one line per record and no other but its
/// two-line heading: when no field of a record holds a newline, its body
/// holds exactly two newlines more than there are records.
pub proof fn lemma_email_body_line_count(rows: Seq<PortStatusRecord>)
    requires
        rows.len() > 0,
        forall|i: int|
            0 <= i < rows.len() ==> {
                &&& single_line((#[trigger] rows[i]).ip@)
                &&& single_line(rows[i].proto@)
                &&& single_line(rows[i].status@)
                &&& single_line(rows[i].reason@)
            },
    ensures
        newlines(email_body(rows)) == rows.len() + 2,
{
    reveal_strlit("Open ports detected:\n\n");
    reveal_strlit("Open ports detected:");
    let heading = "Open ports detected:"@;
    assert("Open ports detected:\n\n"@ =~= heading + seq!['\n', '\n']);
    assert('\n' as u32 == 0x0a);
    lemma_no_newlines(heading);
    let nl2 = seq!['\n', '\n'];
    assert(nl2.drop_last() =~= seq!['\n']);
    assert(seq!['\n'].drop_last() =~= Seq::<char>::empty());
    assert(newlines(Seq::<char>::empty()) == 0);
    assert(seq!['\n'].last() == '\n');
    assert(newlines(seq!['\n']) == 1);
    assert(nl2.last() == '\n');
    assert(newlines(nl2) == 2);
    lemma_newlines_concat(heading, nl2);
    lemma_email_lines_newlines(rows);
    lemma_newlines_concat("Open ports detected:\n\n"@, email_lines(rows));
}

} // verus!
