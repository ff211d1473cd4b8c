use vstd::prelude::*;
use vstd::string::StrSliceExecFns;

verus! {

/// A contact channel with its address.
#[derive(PartialEq, Debug, Clone)]
pub enum CommData {
    Email(String),
}

/// The tag under which a channel is stored.
pub open spec fn channel_tag(comm: CommData) -> Seq<char> {
    match comm {
        CommData::Email(_) => "EMAIL"@,
    }
}

/// Whether a text is exactly the given literal.
fn text_is(text: &str, expected: &str) -> (r: bool)
    ensures
        r == (text@ == expected@),
{
    let n = text.unicode_len();
    if n != expected.unicode_len() {
        return false;
    }
    let mut i: usize = 0;
    while i < n
        invariant
            n == text@.len(),
            n == expected@.len(),
            0 <= i <= n,
            forall|k: int| 0 <= k < i ==> text@[k] == expected@[k],
        decreases n - i,
    {
        if text.get_char(i) != expected.get_char(i) {
            return false;
        }
        i = i + 1;
    }
    assert(text@ =~= expected@);
    true
}

impl CommData {
    /// Rebuilds a contact channel from its stored tag and address: `None`
    /// for a tag that names no known channel.
    pub fn from_columns(contact_type: &str, contact: String) -> (r: Option<CommData>)
        ensures
            contact_type@ == "EMAIL"@ ==> r == Some(CommData::Email(contact)),
            contact_type@ != "EMAIL"@ ==> r is None,
    {
        if text_is(contact_type, "EMAIL") {
            Some(CommData::Email(contact))
        } else {
            None
        }
    }

    pub fn channel_tag(&self) -> (r: &'static str)
        ensures
            r@ == channel_tag(*self),
    {
        proof {
            reveal_strlit("EMAIL");
        }
        match self {
            CommData::Email(_) => "EMAIL",
        }
    }

    /// The address on the channel.
    pub fn address(&self) -> (r: &str)
        ensures
            r@ == (match *self {
                CommData::Email(a) => a@,
            }),
    {
        match self {
            CommData::Email(a) => a.as_str(),
        }
    }
}

/// One contact of a user.
#[derive(PartialEq, Debug, Clone)]
pub struct UserCommunication {
    pub comm_id: u32,
    pub user_id: u32,
    pub communication: CommData,
}

impl UserCommunication {
    pub fn new(comm_id: u32, user_id: u32, communication: CommData) -> (r: Self)
        ensures
            r.comm_id == comm_id,
            r.user_id == user_id,
            r.communication == communication,
    {
        UserCommunication { comm_id, user_id, communication }
    }

    pub fn user_id(&self) -> (r: u32)
        ensures
            r == self.user_id,
    {
        self.user_id
    }

    pub fn communication(&self) -> (r: &CommData)
        ensures
            *r == self.communication,
    {
        &self.communication
    }

    pub fn comm_id(&self) -> (r: u32)
        ensures
            r == self.comm_id,
    {
        self.comm_id
    }
}

/// The SMTP settings of the email notifier.
pub struct EmailSMTPData {
    pub smtp_server: String,
    pub username: String,
    pub password: String,
    pub port: Option<i64>,
    pub from_name: String,
    pub from_email: String,
}

impl EmailSMTPData {
    pub fn new(
        smtp_server: String,
        username: String,
        password: String,
        port: Option<i64>,
        from_name: String,
        from_email: String,
    ) -> (r: Self)
        ensures
            r.smtp_server == smtp_server,
            r.username == username,
            r.password == password,
            r.port == port,
            r.from_name == from_name,
            r.from_email == from_email,
    {
        EmailSMTPData { smtp_server, username, password, port, from_name, from_email }
    }

    pub fn smtp_server(&self) -> (r: &str)
        ensures
            r@ == self.smtp_server@,
    {
        self.smtp_server.as_str()
    }

    pub fn username(&self) -> (r: &str)
        ensures
            r@ == self.username@,
    {
        self.username.as_str()
    }

    pub fn password(&self) -> (r: &str)
        ensures
            r@ == self.password@,
    {
        self.password.as_str()
    }

    pub fn port(&self) -> (r: Option<i64>)
        ensures
            r == self.port,
    {
        self.port
    }

    pub fn from_name(&self) -> (r: &str)
        ensures
            r@ == self.from_name@,
    {
        self.from_name.as_str()
    }

    pub fn from_email(&self) -> (r: &str)
        ensures
            r@ == self.from_email@,
    {
        self.from_email.as_str()
    }
}

} // verus!
