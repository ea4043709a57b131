//! Answering a request: classify it, then let it through, refuse it, or
//! serve it a generated page.
use vstd::prelude::*;
use crate::classifier::classifier::{
    Classification, Classifier, Decision, DecisionView, SpamReasonView, Request, header_text, header_value, opt_text,
    spam_bytes,
};
use crate::config::settings::{IpAddress, ServerMode};
use crate::garbage::garbage::{Garbage, GarbageError, page_title};
use crate::garbage::template::rendered;

verus! {

/// An answer: its status code and its body.
pub struct Response {
    pub status: u16,
    pub body: String,
}

/// What `IpAddr::from_str` of the standard library yields for `text`: the
/// address, or `None` where the text is not one.
pub uninterp spec fn ip_address_of(text: Seq<char>) -> Option<IpAddress>;

/// Reads an IP address with `core::net::IpAddr::from_str`.
#[verifier::external_body]
fn parse_ip_address(s: &str) -> (r: Option<IpAddress>)
    ensures
        r == ip_address_of(s@),
{
    match s.parse::<core::net::IpAddr>() {
        Ok(core::net::IpAddr::V4(a)) => Some(IpAddress::V4(a.to_bits())),
        Ok(core::net::IpAddr::V6(a)) => Some(IpAddress::V6(a.to_bits())),
        Err(_) => None,
    }
}

/// The client's address: the one in the `x-forwarded-for` header where it
/// holds one, else the address of the connection.
pub open spec fn client_ip_spec(headers: Seq<(String, Vec<u8>)>, connection: Option<IpAddress>) -> Option<IpAddress> {
    match header_text(headers, "x-forwarded-for"@) {
        Some(t) => match ip_address_of(t) {
            Some(a) => Some(a),
            None => connection,
        },
        None => connection,
    }
}

/// The client's address.
pub fn client_ip(req: &Request, connection: Option<IpAddress>) -> (r: Option<IpAddress>)
    ensures
        r == client_ip_spec(req.headers@, connection),
{
    match req.header_text("x-forwarded-for") {
        Some(t) => match parse_ip_address(t.as_str()) {
            Some(a) => Some(a),
            None => connection,
        },
        None => connection,
    }
}

/// The path and query of a request; `/` where it has none.
pub open spec fn request_path_spec(req: Request) -> Seq<char> {
    match req.path_and_query {
        Some(p) => p@,
        None => "/"@,
    }
}

/// The path and query of a request; `/` where it has none.
pub fn request_path(req: &Request) -> (r: &str)
    ensures
        r@ == request_path_spec(*req),
{
    match &req.path_and_query {
        Some(p) => p.as_str(),
        None => "/",
    }
}

/// An answer with a status code and no body.
pub fn empty_response(status_code: u16) -> (r: Response)
    ensures
        r.status == status_code,
        r.body@ == Seq::<char>::empty(),
{
    Response { status: status_code, body: String::new() }
}

/// What answers requests: the client's connection address, the
/// classifier, the page generator, and the status codes for valid requests
/// and for spam.
pub struct PslHandler<'a> {
    pub client_ip: Option<IpAddress>,
    pub classifier: &'a Classifier,
    pub garbage: &'a Garbage,
    pub status_code_valid: u16,
    pub status_code_spam: u16,
}

/// Whether a decision is spam.
pub open spec fn is_spam(d: DecisionView) -> bool {
    d is Spam
}

impl<'a> PslHandler<'a> {
    /// Whether a generated page can be served for the request.
    pub open spec fn can_serve(&self, req: Request) -> bool {
        self.garbage.wf() && self.garbage.draws_ok(request_path_spec(req))
    }

    /// Whether `r` answers with a page at `path`: the rendering, with status
    /// 200, of a page that the generator may make there, or the template's
    /// error in rendering it.
    pub open spec fn serves_page(&self, path: Seq<char>, r: Result<Response, GarbageError>) -> bool {
        exists|ps: Seq<Seq<char>>, ls: Option<Seq<(Seq<char>, Seq<char>)>>|
            #![trigger self.garbage.is_page(path, ps, ls)]
            self.garbage.is_page(path, ps, ls) && match (r, rendered(self.garbage.template_source(), page_title(), ps, ls)) {
                (Ok(resp), Ok(u)) => resp.status == 200 && resp.body@ == u,
                (Err(GarbageError::Template(m)), Err(u)) => m@ == u,
                _ => false,
            }
    }

    /// The generated page at the request's path, with status 200.
    pub fn garbage_response(&self, req: &Request) -> (r: Result<Response, GarbageError>)
        requires
            self.can_serve(*req),
        ensures
            r matches Ok(resp) ==> resp.status == 200,
            self.serves_page(request_path_spec(*req), r),
    {
        let path = request_path(req);
        let rendered_page = self.garbage.render(path);
        let ghost (ps, ls) = choose|ps: Seq<Seq<char>>, ls: Option<Seq<(Seq<char>, Seq<char>)>>|
            self.garbage.is_page(path@, ps, ls) && match (rendered_page, rendered(self.garbage.template_source(), page_title(), ps, ls)) {
                (Ok(t), Ok(u)) => t@ == u,
                (Err(GarbageError::Template(m)), Err(u)) => m@ == u,
                _ => false,
            };
        let r = match rendered_page {
            Ok(body) => Ok(Response { status: 200, body }),
            Err(e) => Err(e),
        };
        assert(self.garbage.is_page(request_path_spec(*req), ps, ls));
        r
    }

    /// What a proxy answers: a valid request gets an empty answer with the
    /// valid status code, spam gets a generated page with status 200.
    pub open spec fn proxy_outcome(&self, req: Request, r: (Classification, Result<Response, GarbageError>)) -> bool {
        &&& self.classifier.decision_holds(
            req.path@,
            r.0.ip,
            opt_text(r.0.agent),
            opt_text(r.0.poison),
            r.0.asn,
            r.0.decision@,
        )
        &&& r.0.ip == req.remote_ip
        &&& !is_spam(r.0.decision@) ==> (r.1 matches Ok(resp) && resp.status == self.status_code_valid
            && resp.body@.len() == 0)
        &&& is_spam(r.0.decision@) ==> self.serves_page(request_path_spec(req), r.1)
    }

    /// Whether the request's trusted decision header says `spam`.
    pub open spec fn header_says_spam(&self, req: Request) -> bool {
        self.classifier.trusted_decision_header() matches Some(h) && header_value(req.headers@, h) == Some(
            spam_bytes(),
        )
    }

    /// Whether a classification is the bare one of spam by a trusted decision.
    pub open spec fn trusted_spam(c: Classification) -> bool {
        c.decision@ == DecisionView::Spam(SpamReasonView::TrustedDecision) && c.bare(c.decision@)
    }

    /// What a preflight check answers: spam by a trusted decision gets a
    /// generated page with status 200; anything else is classified and gets
    /// an empty answer with the valid or the spam status code.
    pub open spec fn preflight_outcome(&self, req: Request, r: (Classification, Result<Response, GarbageError>)) -> bool {
        &&& Self::trusted_spam(r.0) <==> self.header_says_spam(req)
        &&& Self::trusted_spam(r.0) ==> self.serves_page(request_path_spec(req), r.1)
        &&& !Self::trusted_spam(r.0) ==> {
            &&& self.classifier.decision_holds(
                req.path@,
                r.0.ip,
                opt_text(r.0.agent),
                opt_text(r.0.poison),
                r.0.asn,
                r.0.decision@,
            )
            &&& r.0.ip == req.remote_ip
            &&& r.1 matches Ok(resp)
            &&& resp.body@.len() == 0
            &&& resp.status == if is_spam(r.0.decision@) {
                self.status_code_spam
            } else {
                self.status_code_valid
            }
        }
    }

    /// As a proxy: a valid request gets an empty answer with the valid
    /// status code, spam gets a generated page.
    pub fn proxy(&self, req: &Request) -> (r: (Classification, Result<Response, GarbageError>))
        requires
            self.can_serve(*req),
        ensures
            self.proxy_outcome(*req, r),
            is_spam(r.0.decision@) ==> self.serves_page(request_path_spec(*req), r.1),
    {
        let classification = self.classifier.classify(req);
        match classification.decision {
            Decision::Valid(_) => {
                let resp = empty_response(self.status_code_valid);
                (classification, Ok(resp))
            },
            Decision::Spam(_) => {
                let resp = self.garbage_response(req);
                (classification, resp)
            },
        }
    }

    /// As a preflight check: spam by a trusted decision gets a generated
    /// page; anything else is classified and gets an empty answer with the
    /// valid or the spam status code.
    pub fn preflight(&self, req: &Request) -> (r: (Classification, Result<Response, GarbageError>))
        requires
            self.can_serve(*req),
        ensures
            self.preflight_outcome(*req, r),
            self.header_says_spam(*req) ==> self.serves_page(request_path_spec(*req), r.1),
    {
        if let Some(classification) = self.classifier.trusted_decision(req) {
            if let Decision::Spam(_) = classification.decision {
                let resp = self.garbage_response(req);
                return (classification, resp);
            }
        }
        let classification = self.classifier.classify(req);
        let status = match classification.decision {
            Decision::Valid(_) => self.status_code_valid,
            Decision::Spam(_) => self.status_code_spam,
        };
        (classification, Ok(empty_response(status)))
    }

    /// Answers a request in the server's mode, after taking the client's
    /// address from the `x-forwarded-for` header or the connection. That
    /// address is stored in the request, where classification reads it: a
    /// trusted address makes the request valid, and it is the address whose
    /// network is looked up.
    pub fn handle(&self, mode: ServerMode, req: &mut Request) -> (r: (Classification, Result<Response, GarbageError>))
        requires
            self.can_serve(*old(req)),
        ensures
            final(req).remote_ip == client_ip_spec(old(req).headers@, self.client_ip),
            final(req).headers == old(req).headers,
            final(req).path == old(req).path,
            final(req).path_and_query == old(req).path_and_query,
            mode is Proxy ==> self.proxy_outcome(*final(req), r),
            mode is Preflight ==> self.preflight_outcome(*final(req), r),
    {
        req.remote_ip = client_ip(req, self.client_ip);
        match mode {
            ServerMode::Proxy => self.proxy(req),
            ServerMode::Preflight => self.preflight(req),
        }
    }
}

} // verus!
