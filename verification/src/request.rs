use crate::json::{Json, JsonModel};
use vstd::prelude::*;
use vstd::string::*;

verus! {

/// A query as it is sent to the query service: the value of the query and
/// the options that go with it.
#[derive(Debug, PartialEq, Eq)]
pub struct XtqlQuery {
    /// The value of the query.
    pub query: Json,
    /// The options of the request, as the caller gives them.
    pub options: Json,
}

/// The body of the request for `query` with `options`: an object of two
/// entries, `query` and `queryOpts`.
pub open spec fn request_model(query: JsonModel, options: JsonModel) -> JsonModel {
    JsonModel::pair("query"@, query, "queryOpts"@, options)
}

impl Clone for XtqlQuery {
    fn clone(&self) -> (copy: XtqlQuery)
        ensures
            copy.query@ == self.query@,
            copy.options@ == self.options@,
    {
        XtqlQuery { query: self.query.clone(), options: self.options.clone() }
    }
}

impl XtqlQuery {
    /// The body of the request that asks for this query.
    pub fn request_body(self) -> (body: Json)
        ensures
            body@ == request_model(self.query@, self.options@),
            self.query@.well_formed() && self.options@.well_formed() ==> body@.well_formed(),
    {
        proof {
            reveal_strlit("query");
            reveal_strlit("queryOpts");
            assert("query"@.len() != "queryOpts"@.len());
        }
        Json::pair(
            String::from_str("query"),
            self.query,
            String::from_str("queryOpts"),
            self.options,
        )
    }
}

} // verus!
