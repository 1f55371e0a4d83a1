//! The browsing and editing state of the interface: which host is selected, and the
//! edit form with its focused field. Reading and writing the file is left to the caller.
use vstd::prelude::*;
use crate::ssh_config::{
    blank_entry, entries_view, load_host_entries, parse_lines, update_host_entry, upsert_host_entry,
    update_lines, upsert_lines, validation_error, validation_message, HostEntry, HostEntryView,
};
use crate::text::{push_char, str_eq};

verus! {

/// Whether the host list or the edit form is shown, and for what.
#[derive(Debug, Clone, Copy, PartialEq, Eq, Structural)]
pub enum AppState {
    Normal,
    Edit,
    New,
}

/// The fields of the edit form, in focus order.
#[derive(Debug, Clone, Copy, PartialEq, Eq, Structural)]
pub enum FormField {
    Host,
    HostName,
    User,
    Port,
    IdentityFile,
}

/// The field after `f` in focus order; the last wraps to the first.
pub open spec fn field_after(f: FormField) -> FormField {
    match f {
        FormField::Host => FormField::HostName,
        FormField::HostName => FormField::User,
        FormField::User => FormField::Port,
        FormField::Port => FormField::IdentityFile,
        FormField::IdentityFile => FormField::Host,
    }
}

impl FormField {
    /// The field after this one; the last wraps to the first.
    pub fn next(self) -> (r: FormField)
        ensures
            r == field_after(self),
    {
        match self {
            FormField::Host => FormField::HostName,
            FormField::HostName => FormField::User,
            FormField::User => FormField::Port,
            FormField::Port => FormField::IdentityFile,
            FormField::IdentityFile => FormField::Host,
        }
    }

    /// The field before this one; the first wraps to the last.
    pub fn previous(self) -> (r: FormField)
        ensures
            r == match self {
                FormField::Host => FormField::IdentityFile,
                FormField::HostName => FormField::Host,
                FormField::User => FormField::HostName,
                FormField::Port => FormField::User,
                FormField::IdentityFile => FormField::Port,
            },
            field_after(r) == self,
    {
        match self {
            FormField::Host => FormField::IdentityFile,
            FormField::HostName => FormField::Host,
            FormField::User => FormField::HostName,
            FormField::Port => FormField::User,
            FormField::IdentityFile => FormField::Port,
        }
    }
}

/// Whether `c` is a control character (what `char::is_control` tests).
pub open spec fn is_control(c: char) -> bool {
    c as u32 <= 0x1f || (0x7f <= c as u32 && c as u32 <= 0x9f)
}

fn char_is_control(c: char) -> (r: bool)
    ensures
        r == is_control(c),
{
    let n = c as u32;
    n <= 0x1f || (0x7f <= n && n <= 0x9f)
}

/// Relies on `String::pop`: the last character, if there is one, is removed and returned.
#[verifier::external_body]
fn pop_char(s: &mut String) -> (r: Option<char>)
    ensures
        old(s)@.len() == 0 ==> r is None && final(s)@ == old(s)@,
        old(s)@.len() > 0 ==> r == Some(old(s)@.last()) && final(s)@ == old(s)@.drop_last(),
{
    s.pop()
}

/// A copy of `s`.
fn copy_string(s: &String) -> (r: String)
    ensures
        r@ == s@,
{
    s.clone()
}

impl HostEntry {
    /// A field-by-field copy of the record.
    pub fn duplicate(&self) -> (r: HostEntry)
        ensures
            r@ == self@,
    {
        let mut extra: Vec<String> = Vec::new();
        let mut i: usize = 0;
        while i < self.extra.len()
            invariant
                i <= self.extra.len(),
                extra.deep_view() == self.extra.deep_view().take(i as int),
            decreases self.extra.len() - i,
        {
            let ghost before = extra.deep_view();
            let c = copy_string(&self.extra[i]);
            assert(c@ == self.extra.deep_view()[i as int]);
            extra.push(c);
            assert(extra.deep_view() =~= before.push(c@));
            assert(extra.deep_view() =~= self.extra.deep_view().take(i + 1));
            i += 1;
        }
        assert(self.extra.deep_view().take(self.extra.len() as int) =~= self.extra.deep_view());
        HostEntry {
            host: copy_string(&self.host),
            hostname: copy_string(&self.hostname),
            user: copy_string(&self.user),
            port: copy_string(&self.port),
            identity_file: copy_string(&self.identity_file),
            proxy_command: copy_string(&self.proxy_command),
            extra,
        }
    }
}

/// The value of the form field `f` in `e`.
pub open spec fn field_value(e: HostEntryView, f: FormField) -> Seq<char> {
    match f {
        FormField::Host => e.host,
        FormField::HostName => e.hostname,
        FormField::User => e.user,
        FormField::Port => e.port,
        FormField::IdentityFile => e.identity_file,
    }
}

/// `e` with the form field `f` set to `v`.
pub open spec fn with_field(e: HostEntryView, f: FormField, v: Seq<char>) -> HostEntryView {
    match f {
        FormField::Host => HostEntryView { host: v, ..e },
        FormField::HostName => HostEntryView { hostname: v, ..e },
        FormField::User => HostEntryView { user: v, ..e },
        FormField::Port => HostEntryView { port: v, ..e },
        FormField::IdentityFile => HostEntryView { identity_file: v, ..e },
    }
}

/// The state of the interface.
pub struct App {
    pub hosts: Vec<HostEntry>,
    pub selected: usize,
    pub status: Option<String>,
    pub state: AppState,
    pub form_entry: HostEntry,
    pub form_field: FormField,
    pub form_error: Option<String>,
    /// The name the edited record had when the form was opened.
    pub original_host_name: Option<String>,
}

impl App {
    /// The list view over `hosts`, with the first one selected.
    pub fn new(hosts: Vec<HostEntry>) -> (r: App)
        ensures
            r.hosts@ == hosts@,
            r.selected == 0,
            r.status is None,
            r.state == AppState::Normal,
            r.form_entry@ == blank_entry(Seq::empty()),
            r.form_field == FormField::Host,
            r.form_error is None,
            r.original_host_name is None,
    {
        App {
            hosts,
            selected: 0,
            status: None,
            state: AppState::Normal,
            form_entry: HostEntry::default(),
            form_field: FormField::Host,
            form_error: None,
            original_host_name: None,
        }
    }

    /// The list view over `hosts`, as `new` makes it.
    pub fn test_with_hosts(hosts: Vec<HostEntry>) -> (r: App)
        ensures
            r.hosts@ == hosts@,
            r.selected == 0,
            r.status is None,
            r.state == AppState::Normal,
            r.form_entry@ == blank_entry(Seq::empty()),
            r.form_field == FormField::Host,
            r.form_error is None,
            r.original_host_name is None,
    {
        App::new(hosts)
    }

    /// Selects the next host, wrapping from the last to the first.
    pub fn next(&mut self)
        requires
            old(self).selected < usize::MAX,
        ensures
            final(self).selected == if old(self).hosts.len() == 0 {
                old(self).selected as int
            } else {
                (old(self).selected + 1) % (old(self).hosts.len() as int)
            },
            *final(self) == (App { selected: final(self).selected, ..*old(self) }),
    {
        if self.hosts.len() == 0 {
            return;
        }
        self.selected = (self.selected + 1) % self.hosts.len();
    }

    /// Selects the previous host, wrapping from the first to the last.
    pub fn previous(&mut self)
        ensures
            final(self).selected == if old(self).hosts.len() == 0 {
                old(self).selected as int
            } else if old(self).selected == 0 {
                old(self).hosts.len() - 1
            } else {
                old(self).selected - 1
            },
            *final(self) == (App { selected: final(self).selected, ..*old(self) }),
    {
        if self.hosts.len() == 0 {
            return;
        }
        if self.selected == 0 {
            self.selected = self.hosts.len() - 1;
        } else {
            self.selected -= 1;
        }
    }

    /// The selected host, if the selection is within the list.
    pub fn selected_host(&self) -> (r: Option<&HostEntry>)
        ensures
            self.selected < self.hosts.len() ==> r == Some(&self.hosts[self.selected as int]),
            self.selected >= self.hosts.len() ==> r is None,
    {
        if self.selected < self.hosts.len() {
            Some(&self.hosts[self.selected])
        } else {
            None
        }
    }

    /// The name of the selected host, if the selection is within the list.
    pub fn selected_host_name(&self) -> (r: Option<&str>)
        ensures
            self.selected < self.hosts.len() ==> (r matches Some(n) && n@ == self.hosts[self.selected as int].host@),
            self.selected >= self.hosts.len() ==> r is None,
    {
        if self.selected < self.hosts.len() {
            Some(self.hosts[self.selected].host.as_str())
        } else {
            None
        }
    }

    /// Shows the outcome of a connection: its message, or the error after `Error: `.
    pub fn set_status(&mut self, result: Result<String, String>)
        ensures
            match result {
                Ok(m) => final(self).status == Some(m),
                Err(e) => (final(self).status matches Some(s) && s@ == "Error: "@ + e@),
            },
            *final(self) == (App { status: final(self).status, ..*old(self) }),
    {
        match result {
            Ok(msg) => {
                self.status = Some(msg);
            },
            Err(e) => {
                let mut s = String::from_str("Error: ");
                s.append(e.as_str());
                self.status = Some(s);
            },
        }
    }

    pub open spec fn form_active(&self) -> bool {
        self.state != AppState::Normal
    }

    /// Whether the edit form is shown.
    pub fn is_form_active(&self) -> (r: bool)
        ensures
            r == self.form_active(),
    {
        self.state != AppState::Normal
    }

    /// Opens the form on a copy of the selected host; nothing happens when no host
    /// is selected.
    pub fn enter_edit_mode(&mut self)
        ensures
            old(self).selected < old(self).hosts.len() ==> {
                let e = old(self).hosts[old(self).selected as int];
                &&& final(self).form_entry@ == e@
                &&& (final(self).original_host_name matches Some(n) && n@ == e.host@)
                &&& final(self).form_field == FormField::Host
                &&& final(self).form_error is None
                &&& final(self).state == AppState::Edit
                &&& *final(self) == (App { form_entry: final(self).form_entry, original_host_name: final(self).original_host_name, form_field: final(self).form_field, form_error: final(self).form_error, state: final(self).state, ..*old(self) })
            },
            old(self).selected >= old(self).hosts.len() ==> *final(self) == *old(self),
    {
        if self.selected < self.hosts.len() {
            let entry = self.hosts[self.selected].duplicate();
            let name = copy_string(&entry.host);
            self.form_entry = entry;
            self.original_host_name = Some(name);
            self.form_field = FormField::Host;
            self.form_error = None;
            self.state = AppState::Edit;
        }
    }

    /// Opens an empty form for a new host.
    pub fn enter_new_mode(&mut self)
        ensures
            final(self).form_entry@ == blank_entry(Seq::empty()),
            final(self).original_host_name is None,
            final(self).form_field == FormField::Host,
            final(self).form_error is None,
            final(self).state == AppState::New,
            *final(self) == (App { form_entry: final(self).form_entry, original_host_name: final(self).original_host_name, form_field: final(self).form_field, form_error: final(self).form_error, state: final(self).state, ..*old(self) }),
    {
        self.form_entry = HostEntry::default();
        self.original_host_name = None;
        self.form_field = FormField::Host;
        self.form_error = None;
        self.state = AppState::New;
    }

    /// Closes the form and drops what was typed.
    pub fn cancel_form(&mut self)
        ensures
            final(self).state == AppState::Normal,
            final(self).form_entry@ == blank_entry(Seq::empty()),
            final(self).form_error is None,
            final(self).original_host_name is None,
            *final(self) == (App { state: final(self).state, form_entry: final(self).form_entry, form_error: final(self).form_error, original_host_name: final(self).original_host_name, ..*old(self) }),
    {
        self.state = AppState::Normal;
        self.form_entry = HostEntry::default();
        self.form_error = None;
        self.original_host_name = None;
    }

    /// Moves the focus to the next field of the form, if it is shown.
    pub fn focus_next_field(&mut self)
        ensures
            final(self).form_field == if old(self).form_active() {
                field_after(old(self).form_field)
            } else {
                old(self).form_field
            },
            *final(self) == (App { form_field: final(self).form_field, ..*old(self) }),
    {
        if self.is_form_active() {
            self.form_field = self.form_field.next();
        }
    }

    /// Moves the focus to the previous field of the form, if it is shown.
    pub fn focus_previous_field(&mut self)
        ensures
            old(self).form_active() ==> field_after(final(self).form_field) == old(self).form_field,
            !old(self).form_active() ==> final(self).form_field == old(self).form_field,
            *final(self) == (App { form_field: final(self).form_field, ..*old(self) }),
    {
        if self.is_form_active() {
            self.form_field = self.form_field.previous();
        }
    }

    /// Types `ch` at the end of the focused field; control characters, and typing
    /// while the form is closed, change nothing.
    pub fn handle_form_input(&mut self, ch: char)
        ensures
            !old(self).form_active() || is_control(ch) ==> *final(self) == *old(self),
            old(self).form_active() && !is_control(ch) ==> {
                &&& final(self).form_entry@ == with_field(
                    old(self).form_entry@,
                    old(self).form_field,
                    field_value(old(self).form_entry@, old(self).form_field).push(ch),
                )
                &&& final(self).form_error is None
                &&& *final(self) == (App { form_entry: final(self).form_entry, form_error: final(self).form_error, ..*old(self) })
            },
    {
        if !self.is_form_active() || char_is_control(ch) {
            return;
        }
        self.form_error = None;
        match self.form_field {
            FormField::Host => push_char(&mut self.form_entry.host, ch),
            FormField::HostName => push_char(&mut self.form_entry.hostname, ch),
            FormField::User => push_char(&mut self.form_entry.user, ch),
            FormField::Port => push_char(&mut self.form_entry.port, ch),
            FormField::IdentityFile => push_char(&mut self.form_entry.identity_file, ch),
        }
    }

    /// Deletes the last character of the focused field, if the form is shown.
    pub fn handle_form_backspace(&mut self)
        ensures
            !old(self).form_active() ==> *final(self) == *old(self),
            old(self).form_active() ==> {
                let v = field_value(old(self).form_entry@, old(self).form_field);
                &&& final(self).form_entry@ == with_field(
                    old(self).form_entry@,
                    old(self).form_field,
                    if v.len() == 0 {
                        v
                    } else {
                        v.drop_last()
                    },
                )
                &&& final(self).form_error is None
                &&& *final(self) == (App { form_entry: final(self).form_entry, form_error: final(self).form_error, ..*old(self) })
            },
    {
        if !self.is_form_active() {
            return;
        }
        self.form_error = None;
        match self.form_field {
            FormField::Host => {
                pop_char(&mut self.form_entry.host);
            },
            FormField::HostName => {
                pop_char(&mut self.form_entry.hostname);
            },
            FormField::User => {
                pop_char(&mut self.form_entry.user);
            },
            FormField::Port => {
                pop_char(&mut self.form_entry.port);
            },
            FormField::IdentityFile => {
                pop_char(&mut self.form_entry.identity_file);
            },
        }
    }

    /// The name of the block that saving the form rewrites: the name the record had
    /// when the form was opened, else its name now.
    pub open spec fn save_target(&self) -> Seq<char> {
        match self.original_host_name {
            Some(n) => n@,
            None => self.form_entry.host@,
        }
    }

    /// The lines of a file made of `lines` once the form's record is saved into it.
    pub open spec fn saved_lines(&self, lines: Seq<Seq<char>>) -> Seq<Seq<char>> {
        if self.state == AppState::Edit {
            update_lines(lines, self.save_target(), self.form_entry@)
        } else {
            upsert_lines(lines, self.form_entry@)
        }
    }

    /// Checks the form before anything is read or written: `true` when it is shown
    /// and its record breaks no rule; otherwise `false`, with the first broken rule's
    /// reason in `form_error` when the form is shown.
    pub fn check_form(&mut self) -> (r: bool)
        ensures
            r == (old(self).form_active() && validation_error(old(self).form_entry@) is None),
            !old(self).form_active() || validation_error(old(self).form_entry@) is None
                ==> *final(self) == *old(self),
            old(self).form_active() && validation_error(old(self).form_entry@) is Some ==> {
                &&& (final(self).form_error matches Some(m) && m@ == validation_message(
                    validation_error(old(self).form_entry@)->0,
                ))
                &&& *final(self) == (App { form_error: final(self).form_error, ..*old(self) })
            },
    {
        if !self.is_form_active() {
            return false;
        }
        match self.form_entry.validate() {
            Err(e) => {
                self.form_error = Some(e.message());
                false
            },
            Ok(()) => true,
        }
    }

    /// Checks the form and writes its record into `lines`, the lines of the file:
    /// over the block it was opened on, else over the block of its name or at the
    /// end. Returns whether `lines` changed and is to be written back; then
    /// `complete_save` closes the form. A record that breaks a rule is refused with
    /// its reason in `form_error`.
    pub fn save_form(&mut self, lines: &mut Vec<String>) -> (r: bool)
        ensures
            !old(self).form_active() ==> !r && *final(self) == *old(self) && final(lines)@ == old(
                lines,
            )@,
            old(self).form_active() && validation_error(old(self).form_entry@) is Some ==> {
                &&& !r
                &&& final(lines)@ == old(lines)@
                &&& (final(self).form_error matches Some(m) && m@ == validation_message(
                    validation_error(old(self).form_entry@)->0,
                ))
                &&& *final(self) == (App { form_error: final(self).form_error, ..*old(self) })
            },
            old(self).form_active() && validation_error(old(self).form_entry@) is None ==> {
                &&& r
                &&& final(lines).deep_view() == old(self).saved_lines(old(lines).deep_view())
                &&& *final(self) == *old(self)
            },
    {
        if !self.check_form() {
            return false;
        }
        let res = if self.state == AppState::Edit {
            let target = match &self.original_host_name {
                Some(n) => n.as_str(),
                None => self.form_entry.host.as_str(),
            };
            update_host_entry(lines, target, &self.form_entry)
        } else {
            upsert_host_entry(lines, &self.form_entry)
        };
        res.is_ok()
    }

    /// Closes the form after its record was saved and `lines` written: the host list
    /// is read again from `lines`, the saved host is selected (else the selection is
    /// kept within the list), and the status tells what was done.
    pub fn complete_save(&mut self, lines: &Vec<String>)
        ensures
            entries_view(final(self).hosts@) == parse_lines(lines.deep_view()),
            final(self).selected == selection_after(
                old(self).selected as int,
                parse_lines(lines.deep_view()),
                old(self).form_entry.host@,
            ),
            final(self).state == AppState::Normal,
            final(self).form_entry@ == blank_entry(Seq::empty()),
            final(self).form_error is None,
            final(self).original_host_name is None,
            (final(self).status matches Some(m) && m@ == "Host '"@ + old(self).form_entry.host@
                + "' "@ + action_word(old(self).state) + " successfully"@),
    {
        let hosts = load_host_entries(lines);
        let ghost es = entries_view(hosts@);
        let n = hosts.len();
        let mut selected = self.selected;
        if n == 0 {
            selected = 0;
        } else {
            let mut i: usize = 0;
            let mut found = false;
            while i < n && !found
                invariant
                    es == entries_view(hosts@),
                    n == hosts.len(),
                    i <= n,
                    !found ==> first_host_index(es.take(i as int), self.form_entry.host@) is None,
                    found ==> i >= 1 && first_host_index(es, self.form_entry.host@) == Some(
                        (i - 1) as int,
                    ) && selected == i - 1,
                    !found ==> selected == self.selected,
                decreases n - i + if found { 0int } else { 1int },
            {
                proof {
                    lemma_first_host_index_take(es, self.form_entry.host@, i as int);
                }
                assert(es[i as int].host == hosts[i as int].host@);
                if str_eq(hosts[i].host.as_str(), self.form_entry.host.as_str()) {
                    selected = i;
                    found = true;
                }
                i += 1;
            }
            if !found {
                assert(es.take(n as int) =~= es);
                if selected >= n {
                    selected = n - 1;
                }
            }
        }
        let action = match self.state {
            AppState::Edit => "updated",
            AppState::New => "created",
            AppState::Normal => "saved",
        };
        let mut msg = String::from_str("Host '");
        msg.append(self.form_entry.host.as_str());
        msg.append("' ");
        msg.append(action);
        msg.append(" successfully");
        self.hosts = hosts;
        self.selected = selected;
        self.state = AppState::Normal;
        self.form_entry = HostEntry::default();
        self.form_error = None;
        self.original_host_name = None;
        self.status = Some(msg);
    }
}

/// The index of the first record named `h`, if there is one.
pub open spec fn first_host_index(es: Seq<HostEntryView>, h: Seq<char>) -> Option<int>
    decreases es.len(),
{
    if es.len() == 0 {
        None
    } else {
        match first_host_index(es.drop_last(), h) {
            Some(i) => Some(i),
            None => if es.last().host == h {
                Some(es.len() - 1)
            } else {
                None
            },
        }
    }
}

proof fn lemma_first_host_index_take(es: Seq<HostEntryView>, h: Seq<char>, i: int)
    requires
        0 <= i < es.len(),
        first_host_index(es.take(i), h) is None,
    ensures
        es[i].host == h ==> first_host_index(es, h) == Some(i),
        es[i].host != h ==> first_host_index(es.take(i + 1), h) is None,
    decreases es.len() - i,
{
    assert(es.take(i + 1).drop_last() =~= es.take(i));
    if es[i].host == h {
        lemma_first_host_index_prefix(es, h, i + 1);
    }
}

proof fn lemma_first_host_index_prefix(es: Seq<HostEntryView>, h: Seq<char>, k: int)
    requires
        0 < k <= es.len(),
        first_host_index(es.take(k), h) is Some,
    ensures
        first_host_index(es, h) == first_host_index(es.take(k), h),
    decreases es.len() - k,
{
    if k == es.len() {
        assert(es.take(k) =~= es);
    } else {
        assert(es.take(k + 1).drop_last() =~= es.take(k));
        lemma_first_host_index_prefix(es, h, k + 1);
    }
}

/// The selection after the list is read again as `es`: the first record named `h`,
/// else the old selection `sel` kept within the list.
pub open spec fn selection_after(sel: int, es: Seq<HostEntryView>, h: Seq<char>) -> int {
    if es.len() == 0 {
        0
    } else {
        match first_host_index(es, h) {
            Some(i) => i,
            None => if sel >= es.len() {
                es.len() - 1
            } else {
                sel
            },
        }
    }
}

/// The word for what saving did in state `s`.
pub open spec fn action_word(s: AppState) -> Seq<char> {
    match s {
        AppState::Edit => "updated"@,
        AppState::New => "created"@,
        AppState::Normal => "saved"@,
    }
}

} // verus!
