//! A user record and its greeting line.
use vstd::prelude::*;

verus! {

#[derive(Clone, Debug)]
pub struct User {
    pub username: String,
    pub first_name: String,
    pub last_name: String,
    pub email: String,
}

impl User {
    pub fn new(username: String, first_name: String, last_name: String, email: String) -> (r: User)
        ensures
            r.username@ == username@,
            r.first_name@ == first_name@,
            r.last_name@ == last_name@,
            r.email@ == email@,
    {
        User { username, first_name, last_name, email }
    }

    /// `Hello <username> aka <first name> <last name> <email>`.
    pub fn greeting(&self) -> (r: String)
        ensures
            r@ == "Hello "@ + self.username@ + " aka "@ + self.first_name@ + " "@
                + self.last_name@ + " "@ + self.email@,
    {
        let mut line = String::new();
        line.append("Hello ");
        line.append(self.username.as_str());
        line.append(" aka ");
        line.append(self.first_name.as_str());
        line.append(" ");
        line.append(self.last_name.as_str());
        line.append(" ");
        line.append(self.email.as_str());
        line
    }
}

} // verus!
