//! Turning the program's command-line values into a scan: the targets and
//! the port list.
use vstd::prelude::*;
use crate::masscan_cli::{
    port_fragment, ports_value, target_texts, MasscanError, NonEmptyList, NonZeroU16, PortItem, PortSelection, PortSpec,
    TargetSpec,
};
use crate::notifications::EmailConfig;
use crate::text::{
    decimal, is_digit, is_white, lemma_find_char, lemma_decimal_digits, lemma_parse_decimal_u16, lemma_split_join,
    lemma_trim_unchanged, parse_u16, parse_u16_str, split_on, split_once, split_once_str,
    split_str, trim, trim_str,
};

verus! {

/// What one comma-separated piece of a port list contributes: nothing (it
/// is blank), a port item, or the reason it is refused.
pub enum FragmentParse {
    Skip,
    Item(PortItem),
    Fail(MasscanError),
}

/// A port number that `str::parse::<u16>` accepts and that is not zero.
pub open spec fn parse_nonzero_port(t: Seq<char>) -> Option<u16> {
    match parse_u16(t) {
        Some(v) => if v != 0 {
            Some(v)
        } else {
            None
        },
        None => None,
    }
}

/// How one piece of a port list is read. Once trimmed, a blank piece is
/// skipped; a piece with a `-` is a range, split at its first `-`, whose two
/// sides must be non-zero port numbers with the first not above the second;
/// any other piece must be a single non-zero port number.
pub open spec fn parse_port_fragment(f: Seq<char>) -> FragmentParse {
    let t = trim(f);
    if t.len() == 0 {
        FragmentParse::Skip
    } else {
        match split_once(t, '-') {
            Some((a, b)) => match parse_nonzero_port(a) {
                None => FragmentParse::Fail(MasscanError::EmptyValue("port range start")),
                Some(start) => match parse_nonzero_port(b) {
                    None => FragmentParse::Fail(MasscanError::EmptyValue("port range end")),
                    Some(end) => if start > end {
                        FragmentParse::Fail(MasscanError::InvalidPortRange { start, end })
                    } else {
                        FragmentParse::Item(PortItem::Range(start, end))
                    },
                },
            },
            None => match parse_nonzero_port(t) {
                None => FragmentParse::Fail(MasscanError::EmptyValue("port")),
                Some(port) => FragmentParse::Item(PortItem::Single(port)),
            },
        }
    }
}

/// The port items of a list of pieces, read in order; the first refused
/// piece decides the error.
pub open spec fn parse_port_fragments(fs: Seq<Seq<char>>) -> Result<Seq<PortItem>, MasscanError>
    decreases fs.len(),
{
    if fs.len() == 0 {
        Ok(Seq::empty())
    } else {
        match parse_port_fragments(fs.drop_last()) {
            Err(e) => Err(e),
            Ok(items) => match parse_port_fragment(fs.last()) {
                FragmentParse::Skip => Ok(items),
                FragmentParse::Item(p) => Ok(items.push(p)),
                FragmentParse::Fail(e) => Err(e),
            },
        }
    }
}

/// What reading a whole port list gives: its items, or the first piece's
/// error, or, when no piece names a port, that the port list is empty.
pub open spec fn port_list_outcome(ports: Seq<char>) -> Result<Seq<PortItem>, MasscanError> {
    match parse_port_fragments(split_on(ports, ',')) {
        Err(e) => Err(e),
        Ok(items) => if items.len() == 0 {
            Err(MasscanError::EmptyValue("port"))
        } else {
            Ok(items)
        },
    }
}

proof fn lemma_error_sticks(fs: Seq<Seq<char>>, k: int, e: MasscanError)
    requires
        0 <= k <= fs.len(),
        parse_port_fragments(fs.take(k)) == Err::<Seq<PortItem>, MasscanError>(e),
    ensures
        parse_port_fragments(fs) == Err::<Seq<PortItem>, MasscanError>(e),
    decreases fs.len() - k,
{
    if k < fs.len() {
        assert(fs.drop_last().take(k) =~= fs.take(k));
        lemma_error_sticks(fs.drop_last(), k, e);
    } else {
        assert(fs.take(k) =~= fs);
    }
}

fn parse_nonzero_port_str(t: &str) -> (r: Option<NonZeroU16>)
    ensures
        match r {
            Some(x) => parse_nonzero_port(t@) == Some(x@),
            None => parse_nonzero_port(t@) is None,
        },
{
    match parse_u16_str(t) {
        Some(v) => NonZeroU16::new(v),
        None => None,
    }
}

/// Reads one piece of a port list: `None` when it is blank.
fn parse_port_fragment_str(f: &str) -> (r: Option<Result<PortSpec, MasscanError>>)
    ensures
        match parse_port_fragment(f@) {
            FragmentParse::Skip => r is None,
            FragmentParse::Item(p) => r matches Some(Ok(spec)) && spec@ == p,
            FragmentParse::Fail(e) => r == Some(Err::<PortSpec, MasscanError>(e)),
        },
{
    let t = trim_str(f);
    if t.is_empty() {
        return None;
    }
    match split_once_str(t, '-') {
        Some((a, b)) => {
            let start = match parse_nonzero_port_str(a) {
                Some(x) => x,
                None => {
                    return Some(Err(MasscanError::EmptyValue("port range start")));
                },
            };
            let end = match parse_nonzero_port_str(b) {
                Some(x) => x,
                None => {
                    return Some(Err(MasscanError::EmptyValue("port range end")));
                },
            };
            Some(PortSpec::range(start, end))
        },
        None => match parse_nonzero_port_str(t) {
            Some(port) => Some(Ok(PortSpec::single(port))),
            None => Some(Err(MasscanError::EmptyValue("port"))),
        },
    }
}

/// Reads a comma-separated port list such as `"80,443,8000-8100"`. Blank
/// pieces are skipped; the first piece that is not a valid port or range
/// decides the error; a list that names no port is refused as empty.
pub fn parse_port_selection(ports: &str) -> (r: Result<PortSelection, MasscanError>)
    ensures
        match port_list_outcome(ports@) {
            Ok(items) => r matches Ok(sel) && sel@ == items,
            Err(e) => r == Err::<PortSelection, MasscanError>(e),
        },
{
    let pieces = split_str(ports, ',');
    let ghost fs = split_on(ports@, ',');
    let mut parsed: Vec<PortSpec> = Vec::new();
    let mut i: usize = 0;
    proof {
        assert(fs.take(0) =~= Seq::<Seq<char>>::empty());
        assert(parsed@.map_values(|p: PortSpec| p@) =~= Seq::<PortItem>::empty());
    }
    while i < pieces.len()
        invariant
            pieces@.map_values(|p: &str| p@) == fs,
            fs == split_on(ports@, ','),
            i <= pieces.len(),
            parse_port_fragments(fs.take(i as int)) == Ok::<Seq<PortItem>, MasscanError>(
                parsed@.map_values(|p: PortSpec| p@),
            ),
        decreases pieces.len() - i,
    {
        let ghost before = parsed@.map_values(|p: PortSpec| p@);
        let outcome = parse_port_fragment_str(pieces[i]);
        proof {
            assert(fs.take(i + 1).drop_last() =~= fs.take(i as int));
            assert(fs.take(i + 1).last() == pieces@[i as int]@);
        }
        match outcome {
            None => {},
            Some(Ok(spec)) => {
                parsed.push(spec);
                assert(parsed@.map_values(|p: PortSpec| p@) =~= before.push(spec@));
            },
            Some(Err(e)) => {
                proof {
                    lemma_error_sticks(fs, i + 1, e);
                }
                return Err(e);
            },
        }
        i = i + 1;
    }
    assert(fs.take(i as int) =~= fs);
    if parsed.len() == 0 {
        return Err(MasscanError::EmptyValue("port"));
    }
    let mut selection = PortSelection::new(parsed[0]);
    let mut j: usize = 1;
    assert(parsed@.map_values(|p: PortSpec| p@).take(1) =~= seq![parsed@[0]@]);
    while j < parsed.len()
        invariant
            1 <= j <= parsed.len(),
            selection@ == parsed@.map_values(|p: PortSpec| p@).take(j as int),
        decreases parsed.len() - j,
    {
        selection = selection.push(parsed[j]);
        assert(parsed@.map_values(|p: PortSpec| p@).take(j + 1) =~= parsed@.map_values(
            |p: PortSpec| p@,
        ).take(j as int).push(parsed@[j as int]@));
        j = j + 1;
    }
    assert(parsed@.map_values(|p: PortSpec| p@).take(j as int) =~= parsed@.map_values(
        |p: PortSpec| p@,
    ));
    Ok(selection)
}


/// Whether every value is a non-blank target.
pub open spec fn all_targets_present(values: Seq<String>) -> bool {
    forall|i: int| 0 <= i < values.len() ==> trim((#[trigger] values[i])@).len() > 0
}

/// The scan targets named by `values`, in order. There must be at least
/// one, and none may be blank.
pub fn build_targets(values: &[String]) -> (r: Result<NonEmptyList<TargetSpec>, MasscanError>)
    ensures
        values@.len() == 0 || !all_targets_present(values@) ==> r == Err::<
            NonEmptyList<TargetSpec>,
            MasscanError,
        >(MasscanError::EmptyValue("target")),
        values@.len() > 0 && all_targets_present(values@) ==> (r matches Ok(list) && target_texts(
            list@,
        ) == values@.map_values(|v: String| v@)),
{
    if values.len() == 0 {
        return Err(MasscanError::EmptyValue("target"));
    }
    let first = match TargetSpec::new(values[0].as_str()) {
        Ok(t) => t,
        Err(e) => {
            return Err(e);
        },
    };
    let mut targets = NonEmptyList::new(first);
    let mut i: usize = 1;
    let ghost texts = values@.map_values(|v: String| v@);
    assert(target_texts(targets@) =~= texts.take(1));
    while i < values.len()
        invariant
            1 <= i <= values@.len(),
            texts == values@.map_values(|v: String| v@),
            target_texts(targets@) == texts.take(i as int),
            forall|j: int| 0 <= j < i ==> trim((#[trigger] values@[j])@).len() > 0,
        decreases values.len() - i,
    {
        let target = match TargetSpec::new(values[i].as_str()) {
            Ok(t) => t,
            Err(e) => {
                return Err(e);
            },
        };
        let ghost before = targets@;
        assert(target@ == texts[i as int]);
        targets = targets.push(target);
        assert(target_texts(targets@) =~= target_texts(before).push(target@));
        assert(target_texts(targets@) =~= texts.take(i + 1));
        i = i + 1;
    }
    assert(texts.take(i as int) =~= texts);
    Ok(targets)
}

/// The email settings given on the command line, each optional but the
/// port and the subject, which have defaults.
pub struct EmailOptions {
    pub smtp_server: Option<String>,
    pub smtp_port: u16,
    pub smtp_username: Option<String>,
    pub smtp_password: Option<String>,
    pub email_from: Option<String>,
    pub email_to: Option<String>,
    pub email_subject: String,
}

/// Whether any email setting was given at all.
pub open spec fn any_email_setting(o: EmailOptions) -> bool {
    o.smtp_server is Some || o.smtp_username is Some || o.smtp_password is Some
        || o.email_from is Some || o.email_to is Some
}

/// What the email settings give: nothing when none was given; else the
/// complaint about the first missing one, in the order server, user name,
/// password, sender, recipient; else the full configuration.
pub open spec fn email_config_outcome(o: EmailOptions) -> Result<Option<EmailConfig>, Seq<char>> {
    if !any_email_setting(o) {
        Ok(None)
    } else if o.smtp_server is None {
        Err("missing --smtp-server for email notifications"@)
    } else if o.smtp_username is None {
        Err("missing --smtp-username for email notifications"@)
    } else if o.smtp_password is None {
        Err("missing --smtp-password for email notifications"@)
    } else if o.email_from is None {
        Err("missing --email-from for email notifications"@)
    } else if o.email_to is None {
        Err("missing --email-to for email notifications"@)
    } else {
        Ok(
            Some(
                EmailConfig {
                    smtp_server: o.smtp_server->0,
                    smtp_port: o.smtp_port,
                    smtp_username: o.smtp_username->0,
                    smtp_password: o.smtp_password->0,
                    from: o.email_from->0,
                    to: o.email_to->0,
                    subject: o.email_subject,
                },
            ),
        )
    }
}

fn required_setting(value: &Option<String>, missing: &str) -> (r: Result<String, String>)
    ensures
        match value {
            Some(v) => r == Ok::<String, String>(*v),
            None => r matches Err(m) && m@ == missing@,
        },
{
    match value {
        Some(v) => Ok(v.clone()),
        None => Err(missing.to_owned()),
    }
}

/// The email configuration that the command-line settings describe, if any.
pub fn build_email_config(options: &EmailOptions) -> (r: Result<Option<EmailConfig>, String>)
    ensures
        match email_config_outcome(*options) {
            Ok(c) => r == Ok::<Option<EmailConfig>, String>(c),
            Err(m) => r matches Err(e) && e@ == m,
        },
{
    let any_email_arg = options.smtp_server.is_some() || options.smtp_username.is_some()
        || options.smtp_password.is_some() || options.email_from.is_some()
        || options.email_to.is_some();
    if !any_email_arg {
        return Ok(None);
    }
    let smtp_server = required_setting(
        &options.smtp_server,
        "missing --smtp-server for email notifications",
    )?;
    let smtp_username = required_setting(
        &options.smtp_username,
        "missing --smtp-username for email notifications",
    )?;
    let smtp_password = required_setting(
        &options.smtp_password,
        "missing --smtp-password for email notifications",
    )?;
    let from = required_setting(&options.email_from, "missing --email-from for email notifications")?;
    let to = required_setting(&options.email_to, "missing --email-to for email notifications")?;
    Ok(
        Some(
            EmailConfig {
                smtp_server,
                smtp_port: options.smtp_port,
                smtp_username,
                smtp_password,
                from,
                to,
                subject: options.email_subject.clone(),
            },
        ),
    )
}


/// A port item that a selection writes out faithfully: no port is zero,
/// and a range does not run backwards.
pub open spec fn valid_port_item(p: PortItem) -> bool {
    match p {
        PortItem::Single(port) => port != 0,
        PortItem::Range(start, end) => start != 0 && end != 0 && start <= end,
    }
}

proof fn lemma_digits_are_plain(d: Seq<char>)
    requires
        forall|i: int| 0 <= i < d.len() ==> is_digit(#[trigger] d[i]),
    ensures
        forall|i: int| 0 <= i < d.len() ==> #[trigger] d[i] != '-' && d[i] != ',' && !is_white(d[i]),
{
    assert('-' as u32 == 0x2d);
    assert(',' as u32 == 0x2c);
}

/// What a port item's fragment reads back as: the item itself.
proof fn lemma_fragment_round_trip(p: PortItem)
    requires
        valid_port_item(p),
    ensures
        parse_port_fragment(port_fragment(p)) == FragmentParse::Item(p),
        forall|i: int| 0 <= i < port_fragment(p).len() ==> #[trigger] port_fragment(p)[i] != ',',
{
    assert('-' as u32 == 0x2d);
    assert(',' as u32 == 0x2c);
    match p {
        PortItem::Single(port) => {
            let f = decimal(port as nat);
            lemma_decimal_digits(port as nat);
            lemma_digits_are_plain(f);
            lemma_trim_unchanged(f);
            lemma_find_char(f, '-', f.len() as int);
            lemma_parse_decimal_u16(port);
        },
        PortItem::Range(start, end) => {
            let a = decimal(start as nat);
            let b = decimal(end as nat);
            let f = a + seq!['-'] + b;
            lemma_decimal_digits(start as nat);
            lemma_decimal_digits(end as nat);
            lemma_digits_are_plain(a);
            lemma_digits_are_plain(b);
            assert(f[0] == a[0]);
            assert(f.last() == b.last());
            lemma_trim_unchanged(f);
            assert forall|j: int| 0 <= j < a.len() implies #[trigger] f[j] != '-' by {
                assert(f[j] == a[j]);
            }
            assert(f[a.len() as int] == '-');
            lemma_find_char(f, '-', a.len() as int);
            assert(f.take(a.len() as int) =~= a);
            assert(f.skip(a.len() as int + 1) =~= b);
            lemma_parse_decimal_u16(start);
            lemma_parse_decimal_u16(end);
            assert forall|i: int| 0 <= i < f.len() implies #[trigger] f[i] != ',' by {
                if i < a.len() {
                    assert(f[i] == a[i]);
                } else if i > a.len() {
                    assert(f[i] == b[i - a.len() - 1]);
                }
            }
        },
    }
}

proof fn lemma_fragments_round_trip(items: Seq<PortItem>)
    requires
        forall|i: int| 0 <= i < items.len() ==> valid_port_item(#[trigger] items[i]),
    ensures
        parse_port_fragments(items.map_values(|p: PortItem| port_fragment(p))) == Ok::<
            Seq<PortItem>,
            MasscanError,
        >(items),
    decreases items.len(),
{
    if items.len() > 0 {
        let init = items.drop_last();
        lemma_fragments_round_trip(init);
        let frags = items.map_values(|p: PortItem| port_fragment(p));
        assert(frags.drop_last() =~= init.map_values(|p: PortItem| port_fragment(p)));
        lemma_fragment_round_trip(items.last());
        assert(frags.last() == port_fragment(items.last()));
        assert(init.push(items.last()) =~= items);
        assert(parse_port_fragments(frags) == Ok::<Seq<PortItem>, MasscanError>(
            init.push(items.last()),
        ));
    } else {
        assert(items.map_values(|p: PortItem| port_fragment(p)) =~= Seq::<Seq<char>>::empty());
        assert(items =~= Seq::<PortItem>::empty());
    }
}

/// Writing out port items with `ports_value`, the text that
/// `PortSelection::as_cli_value` gives, and reading that text with
/// `parse_port_selection` gives the same items back, so long as there is
/// at least one, no port is zero and no range runs backwards.
pub proof fn lemma_port_list_round_trip(items: Seq<PortItem>)
    requires
        items.len() >= 1,
        forall|i: int| 0 <= i < items.len() ==> valid_port_item(#[trigger] items[i]),
    ensures
        port_list_outcome(ports_value(items)) == Ok::<Seq<PortItem>, MasscanError>(items),
{
    let frags = items.map_values(|p: PortItem| port_fragment(p));
    assert forall|k: int, i: int| 0 <= k < frags.len() && 0 <= i < frags[k].len() implies #[trigger] frags[k][i] != ',' by {
        lemma_fragment_round_trip(items[k]);
    }
    lemma_split_join(frags, ',');
    lemma_fragments_round_trip(items);
}


proof fn lemma_fragments_valid(fs: Seq<Seq<char>>)
    ensures
        parse_port_fragments(fs) matches Ok(items) ==> forall|i: int|
            0 <= i < items.len() ==> valid_port_item(#[trigger] items[i]),
    decreases fs.len(),
{
    if fs.len() > 0 {
        lemma_fragments_valid(fs.drop_last());
    }
}

/// Every port item that `parse_port_selection` accepts is one a selection
/// writes out faithfully: no port is zero and no range runs backwards. With
/// `lemma_port_list_round_trip`, reading a port list, writing it out and
/// reading it again gives the same items.
pub proof fn lemma_parsed_port_items_valid(ports: Seq<char>)
    ensures
        port_list_outcome(ports) matches Ok(items) ==> (items.len() >= 1 && forall|i: int|
            0 <= i < items.len() ==> valid_port_item(#[trigger] items[i])),
        port_list_outcome(ports) matches Ok(items) ==> port_list_outcome(ports_value(items))
            == Ok::<Seq<PortItem>, MasscanError>(items),
{
    lemma_fragments_valid(split_on(ports, ','));
    if let Ok(items) = port_list_outcome(ports) {
        lemma_port_list_round_trip(items);
    }
}

} // verus!
