//! Session descriptors and the saved-session catalog.
//!
//! A `Session` describes what to connect to and how to authenticate.
//! Reading and writing the catalog on disk is outside this crate; the
//! decisions around it — normalising edited fields, keeping the selection
//! consistent, classifying directory-creation failures — are here.

use vstd::prelude::*;
use vstd::string::StrSliceExecFns;
use crate::connect::default_identity;

verus! {

/// How a session authenticates: with a password, or with a private key
/// file. Exactly one variant is active per descriptor.
#[derive(Clone, Copy, Debug, PartialEq, Eq, Structural)]
pub enum AuthModes {
    PasswordAuth,
    KeyFileAuth,
}

impl AuthModes {
    /// The display label of this authentication mode.
    pub fn as_str(&self) -> (r: &'static str)
        ensures
            *self is KeyFileAuth ==> r@ == "Private key"@,
            *self is PasswordAuth ==> r@ == "Password"@,
    {
        match self {
            AuthModes::KeyFileAuth => "Private key",
            AuthModes::PasswordAuth => "Password",
        }
    }
}

impl Default for AuthModes {
    /// Password authentication is the default mode of a fresh descriptor.
    fn default() -> (r: Self)
        ensures
            r == AuthModes::PasswordAuth,
    {
        AuthModes::PasswordAuth
    }
}

/// A session descriptor: the target endpoint, the identity and the
/// credential of one saved session.
pub struct Session {
    pub name: String,
    pub ip: String,
    pub port: i32,
    pub username: Option<String>,
    pub auth_method: AuthModes,
    pub key_path: Option<String>,
    pub password: Option<String>,
}

impl Session {
    /// The port lies in the valid range.
    pub open spec fn port_in_range(&self) -> bool {
        0 <= self.port < 65536
    }

    /// The credential of the active authentication variant is populated.
    pub open spec fn credential_ready(&self) -> bool {
        match self.auth_method {
            AuthModes::PasswordAuth => self.password is Some,
            AuthModes::KeyFileAuth => self.key_path is Some,
        }
    }

    /// The identity this descriptor resolves to: its username when given,
    /// the documented default otherwise.
    pub open spec fn resolved_identity(&self) -> Seq<char> {
        match self.username {
            Option::Some(u) => u@,
            Option::None => default_identity(),
        }
    }

    /// A blank descriptor, as presented by the session editor: password
    /// authentication against port 22, everything else unset.
    pub fn new() -> (r: Self)
        ensures
            r.name@ == Seq::<char>::empty(),
            r.ip@ == Seq::<char>::empty(),
            r.port == 22,
            r.username is None,
            r.auth_method == AuthModes::PasswordAuth,
            r.key_path is None,
            r.password is None,
            r.port_in_range(),
    {
        Session {
            name: String::new(),
            ip: String::new(),
            port: 22,
            username: None,
            auth_method: AuthModes::PasswordAuth,
            key_path: None,
            password: None,
        }
    }
}

/// Any session descriptor with a missing username resolves to the
/// documented default identity.
pub proof fn lemma_missing_username_default(s: Session)
    requires
        s.username is None,
    ensures
        s.resolved_identity() == default_identity(),
{
}

/// The saved-session catalog: the descriptors known to the client.
pub struct Configuration {
    pub sessions: Vec<Session>,
}

impl Configuration {
    /// An empty catalog.
    pub fn new() -> (r: Configuration)
        ensures
            r.sessions@ == Seq::<Session>::empty(),
    {
        Configuration { sessions: Vec::new() }
    }

    /// Appends a descriptor to the catalog.
    pub fn add_session(&mut self, s: Session)
        ensures
            final(self).sessions@ == old(self).sessions@.push(s),
    {
        self.sessions.push(s);
    }

    /// Removes the descriptor at `index` from the catalog.
    pub fn remove_session(&mut self, index: usize)
        requires
            index < old(self).sessions@.len(),
        ensures
            final(self).sessions@ == old(self).sessions@.remove(index as int),
    {
        self.sessions.remove(index);
    }
}

/// True when the character is a decimal digit.
pub open spec fn is_digit_char(c: char) -> bool {
    48 <= c as u32 <= 57
}

/// The numeric value of a decimal digit character.
pub open spec fn digit_value(c: char) -> nat
    recommends
        is_digit_char(c),
{
    (c as u32 - 48) as nat
}

/// The digit characters of `s`, in order, everything else stripped.
pub open spec fn digits_of(s: Seq<char>) -> Seq<char>
    decreases s.len(),
{
    if s.len() == 0 {
        Seq::empty()
    } else if is_digit_char(s.last()) {
        digits_of(s.drop_last()).push(s.last())
    } else {
        digits_of(s.drop_last())
    }
}

/// The numeric value of a digit string, most significant digit first.
pub open spec fn decimal_value(ds: Seq<char>) -> nat
    decreases ds.len(),
{
    if ds.len() == 0 {
        0
    } else {
        decimal_value(ds.drop_last()) * 10 + digit_value(ds.last())
    }
}

/// The port that results from an edit of the port field: digits of the
/// edited text are kept and everything else stripped; the value replaces
/// `current` only when at least one digit remains and the value lies in
/// the valid port range.
pub open spec fn updated_port_spec(text: Seq<char>, current: int) -> int {
    let ds = digits_of(text);
    if ds.len() > 0 && decimal_value(ds) < 65536 {
        decimal_value(ds) as int
    } else {
        current
    }
}

/// Applies an edit of the port field to the current port.
pub fn updated_port(text: &str, current: i32) -> (r: i32)
    ensures
        r as int == updated_port_spec(text@, current as int),
{
    let n = text.unicode_len();
    let mut i: usize = 0;
    let mut acc: u32 = 0;
    let mut any: bool = false;
    let mut over: bool = false;
    while i < n
        invariant
            0 <= i <= n,
            n == text@.len(),
            any == (digits_of(text@.take(i as int)).len() > 0),
            !over ==> acc == decimal_value(digits_of(text@.take(i as int))) && acc < 65536,
            over ==> decimal_value(digits_of(text@.take(i as int))) >= 65536,
        decreases n - i,
    {
        let ghost pre = digits_of(text@.take(i as int));
        let c = text.get_char(i);
        proof {
            assert(text@.take(i as int + 1).drop_last() =~= text@.take(i as int));
            assert(text@.take(i as int + 1).last() == text@[i as int]);
        }
        let u = c as u32;
        if 48 <= u && u <= 57 {
            proof {
                assert(is_digit_char(c));
                assert(digits_of(text@.take(i as int + 1)) == pre.push(c));
                assert(pre.push(c).drop_last() =~= pre);
                assert(pre.push(c).last() == c);
                assert(decimal_value(pre.push(c)) == decimal_value(pre) * 10 + digit_value(c));
            }
            any = true;
            if !over {
                acc = acc * 10 + (u - 48);
                if acc >= 65536 {
                    over = true;
                }
            }
        } else {
            proof {
                assert(digits_of(text@.take(i as int + 1)) == pre);
            }
        }
        i += 1;
    }
    proof {
        assert(text@.take(n as int) =~= text@);
    }
    if any && !over {
        acc as i32
    } else {
        current
    }
}

/// Normalises an edited text field: empty text means the field is unset.
pub fn nonempty_or_none(text: String) -> (r: Option<String>)
    ensures
        text@.len() == 0 ==> r is None,
        text@.len() > 0 ==> r is Some && r->0@ == text@,
{
    if text.as_str().is_empty() {
        None
    } else {
        Some(text)
    }
}

/// A selection vector with nothing selected, one slot per catalog entry.
pub fn reset_selection(len: usize) -> (r: Vec<bool>)
    ensures
        r@.len() == len,
        forall|i: int| 0 <= i < len ==> !r@[i],
{
    let mut v: Vec<bool> = Vec::new();
    let mut k: usize = 0;
    while k < len
        invariant
            0 <= k <= len,
            v@.len() == k,
            forall|i: int| 0 <= i < k ==> !v@[i],
        decreases len - k,
    {
        v.push(false);
        k += 1;
    }
    v
}

/// Selects exactly the entry at `index`, deselecting every other entry.
pub fn select_only(sel: &mut Vec<bool>, index: usize)
    requires
        index < old(sel)@.len(),
    ensures
        final(sel)@.len() == old(sel)@.len(),
        final(sel)@[index as int],
        forall|j: int| 0 <= j < final(sel)@.len() && j != index ==> !final(sel)@[j],
{
    let n = sel.len();
    let mut k: usize = 0;
    while k < n
        invariant
            0 <= k <= n,
            n == sel@.len(),
            forall|j: int| 0 <= j < k ==> !sel@[j],
        decreases n - k,
    {
        sel.set(k, false);
        k += 1;
    }
    sel.set(index, true);
}

/// The first selected index, when any entry is selected.
pub fn selected_index(sel: &Vec<bool>) -> (r: Option<usize>)
    ensures
        match r {
            Option::Some(i) => i < sel@.len() && sel@[i as int] && forall|j: int|
                0 <= j < i ==> !sel@[j],
            Option::None => forall|j: int| 0 <= j < sel@.len() ==> !sel@[j],
        },
{
    let n = sel.len();
    let mut k: usize = 0;
    while k < n
        invariant
            0 <= k <= n,
            n == sel@.len(),
            forall|j: int| 0 <= j < k ==> !sel@[j],
        decreases n - k,
    {
        if sel[k] {
            return Some(k);
        }
        k += 1;
    }
    None
}

/// Deletes the first selected catalog entry, if any, and clears the
/// selection, leaving one (unselected) slot per remaining entry.
pub fn delete_selected(cfg: &mut Configuration, sel: &mut Vec<bool>)
    requires
        old(sel)@.len() == old(cfg).sessions@.len(),
    ensures
        final(sel)@.len() == final(cfg).sessions@.len(),
        forall|j: int| 0 <= j < final(sel)@.len() ==> !final(sel)@[j],
        match crate::config::first_selected(old(sel)@) {
            Option::Some(i) => final(cfg).sessions@ == old(cfg).sessions@.remove(i),
            Option::None => final(cfg).sessions@ == old(cfg).sessions@,
        },
{
    let picked = selected_index(sel);
    match picked {
        Some(i) => {
            proof {
                lemma_first_selected_agrees(old(sel)@, i as int);
            }
            cfg.remove_session(i);
            let fresh = reset_selection(cfg.sessions.len());
            *sel = fresh;
        },
        None => {
            proof {
                lemma_first_selected_none(old(sel)@);
            }
            let fresh = reset_selection(cfg.sessions.len());
            *sel = fresh;
        },
    }
}

/// The first index set in a selection vector.
pub open spec fn first_selected(sel: Seq<bool>) -> Option<int>
    decreases sel.len(),
{
    if sel.len() == 0 {
        Option::None
    } else if sel[0] {
        Option::Some(0int)
    } else {
        match first_selected(sel.drop_first()) {
            Option::Some(i) => Option::Some(i + 1),
            Option::None => Option::None,
        }
    }
}

proof fn lemma_first_selected_agrees(sel: Seq<bool>, i: int)
    requires
        0 <= i < sel.len(),
        sel[i],
        forall|j: int| 0 <= j < i ==> !sel[j],
    ensures
        first_selected(sel) == Option::Some(i),
    decreases sel.len(),
{
    if i == 0 {
    } else {
        assert(!sel[0]);
        lemma_first_selected_agrees(sel.drop_first(), i - 1);
    }
}

proof fn lemma_first_selected_none(sel: Seq<bool>)
    requires
        forall|j: int| 0 <= j < sel.len() ==> !sel[j],
    ensures
        first_selected(sel) is None,
    decreases sel.len(),
{
    if sel.len() == 0 {
    } else {
        assert(!sel[0]);
        lemma_first_selected_none(sel.drop_first());
    }
}

/// Outcome of attempting to create the configuration directory, as the
/// platform reports it.
pub enum DirCreateOutcome {
    Created,
    AlreadyExists,
    PermissionDenied,
    OtherFailure,
}

/// A construction-time failure of the configuration store. These are
/// reported to the caller instead of aborting the process.
#[derive(Clone, Copy, Debug, PartialEq, Eq, Structural)]
pub enum InitError {
    PermissionDenied,
    OtherFailure,
}

/// Decides how a directory-creation outcome affects initialisation: an
/// already existing directory is benign and initialisation proceeds (the
/// result records that it pre-existed); a permission failure and any other
/// failure are each reported as a distinct fatal error.
pub fn init_dir_decision(outcome: DirCreateOutcome) -> (r: Result<bool, InitError>)
    ensures
        match outcome {
            DirCreateOutcome::Created => r == Result::<bool, InitError>::Ok(false),
            DirCreateOutcome::AlreadyExists => r == Result::<bool, InitError>::Ok(true),
            DirCreateOutcome::PermissionDenied => r == Result::<bool, InitError>::Err(
                InitError::PermissionDenied,
            ),
            DirCreateOutcome::OtherFailure => r == Result::<bool, InitError>::Err(
                InitError::OtherFailure,
            ),
        },
{
    match outcome {
        DirCreateOutcome::Created => Ok(false),
        DirCreateOutcome::AlreadyExists => Ok(true),
        DirCreateOutcome::PermissionDenied => Err(InitError::PermissionDenied),
        DirCreateOutcome::OtherFailure => Err(InitError::OtherFailure),
    }
}

} // verus!
