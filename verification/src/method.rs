use vstd::prelude::*;

verus! {

/// An HTTP request method.
///
/// The nine methods of RFC 7231 and RFC 5789 have a variant of their own;
/// any other token is kept, as written, in `Extension`.
pub enum Method {
    Options,
    Get,
    Post,
    Put,
    Delete,
    Head,
    Trace,
    Connect,
    Patch,
    Extension(String),
}

/// The mathematical value of a method: its variant, with the token of an
/// extension method taken as a sequence of characters.
pub enum MethodView {
    Options,
    Get,
    Post,
    Put,
    Delete,
    Head,
    Trace,
    Connect,
    Patch,
    Extension(Seq<char>),
}

impl View for Method {
    type V = MethodView;

    open spec fn view(&self) -> MethodView {
        match self {
            Method::Options => MethodView::Options,
            Method::Get => MethodView::Get,
            Method::Post => MethodView::Post,
            Method::Put => MethodView::Put,
            Method::Delete => MethodView::Delete,
            Method::Head => MethodView::Head,
            Method::Trace => MethodView::Trace,
            Method::Connect => MethodView::Connect,
            Method::Patch => MethodView::Patch,
            Method::Extension(s) => MethodView::Extension(s@),
        }
    }
}

/// Distinct methods have distinct views: two methods have the same view
/// exactly when they are the same variant, with the same token for an
/// extension method. So a route of one method never answers another.
pub proof fn law_method_view_injective(a: Method, b: Method)
    ensures
        a@ == b@ <==> {
            &&& (a is Options <==> b is Options)
            &&& (a is Get <==> b is Get)
            &&& (a is Post <==> b is Post)
            &&& (a is Put <==> b is Put)
            &&& (a is Delete <==> b is Delete)
            &&& (a is Head <==> b is Head)
            &&& (a is Trace <==> b is Trace)
            &&& (a is Connect <==> b is Connect)
            &&& (a is Patch <==> b is Patch)
            &&& (a is Extension <==> b is Extension)
            &&& (a is Extension && b is Extension ==> a->Extension_0@ == b->Extension_0@)
        },
{
}

impl Method {
    /// Whether two methods are the same method.
    pub fn same_as(&self, other: &Method) -> (r: bool)
        ensures
            r == (self@ == other@),
    {
        match self {
            Method::Options => match other {
                Method::Options => true,
                _ => false,
            },
            Method::Get => match other {
                Method::Get => true,
                _ => false,
            },
            Method::Post => match other {
                Method::Post => true,
                _ => false,
            },
            Method::Put => match other {
                Method::Put => true,
                _ => false,
            },
            Method::Delete => match other {
                Method::Delete => true,
                _ => false,
            },
            Method::Head => match other {
                Method::Head => true,
                _ => false,
            },
            Method::Trace => match other {
                Method::Trace => true,
                _ => false,
            },
            Method::Connect => match other {
                Method::Connect => true,
                _ => false,
            },
            Method::Patch => match other {
                Method::Patch => true,
                _ => false,
            },
            Method::Extension(a) => match other {
                Method::Extension(b) => *a == *b,
                _ => false,
            },
        }
    }

    /// A copy of this method.
    pub fn duplicate(&self) -> (r: Method)
        ensures
            r@ == self@,
    {
        match self {
            Method::Options => Method::Options,
            Method::Get => Method::Get,
            Method::Post => Method::Post,
            Method::Put => Method::Put,
            Method::Delete => Method::Delete,
            Method::Head => Method::Head,
            Method::Trace => Method::Trace,
            Method::Connect => Method::Connect,
            Method::Patch => Method::Patch,
            Method::Extension(s) => Method::Extension(s.clone()),
        }
    }
}

} // verus!
