use vstd::prelude::*;

verus! {

/// The bytes of `"HTTP/1.1 200 OK\r\n"`.
pub open spec fn status_line_200() -> Seq<u8> {
    seq![72u8, 84u8, 84u8, 80u8, 47u8, 49u8, 46u8, 49u8, 32u8, 50u8, 48u8, 48u8, 32u8, 79u8, 75u8, 13u8, 10u8]
}

/// The bytes of `"HTTP/1.1 200 OK\r\n"`, as a vector.
pub fn status_line_200_vec() -> (v: Vec<u8>)
    ensures
        v@ == status_line_200(),
{
    let mut v: Vec<u8> = Vec::new();
    v.push(72);
    v.push(84);
    v.push(84);
    v.push(80);
    v.push(47);
    v.push(49);
    v.push(46);
    v.push(49);
    v.push(32);
    v.push(50);
    v.push(48);
    v.push(48);
    v.push(32);
    v.push(79);
    v.push(75);
    v.push(13);
    v.push(10);
    proof {
        assert(v@ =~= status_line_200());
    }
    v
}

/// The bytes of `"HTTP/1.1 404 Not Found\r\n"`.
pub open spec fn status_line_404() -> Seq<u8> {
    seq![72u8, 84u8, 84u8, 80u8, 47u8, 49u8, 46u8, 49u8, 32u8, 52u8, 48u8, 52u8, 32u8, 78u8, 111u8, 116u8, 32u8, 70u8, 111u8, 117u8, 110u8, 100u8, 13u8, 10u8]
}

/// The bytes of `"HTTP/1.1 404 Not Found\r\n"`, as a vector.
pub fn status_line_404_vec() -> (v: Vec<u8>)
    ensures
        v@ == status_line_404(),
{
    let mut v: Vec<u8> = Vec::new();
    v.push(72);
    v.push(84);
    v.push(84);
    v.push(80);
    v.push(47);
    v.push(49);
    v.push(46);
    v.push(49);
    v.push(32);
    v.push(52);
    v.push(48);
    v.push(52);
    v.push(32);
    v.push(78);
    v.push(111);
    v.push(116);
    v.push(32);
    v.push(70);
    v.push(111);
    v.push(117);
    v.push(110);
    v.push(100);
    v.push(13);
    v.push(10);
    proof {
        assert(v@ =~= status_line_404());
    }
    v
}

/// The bytes of `"Content-Type: text/plain\r\n"`.
pub open spec fn content_type_text() -> Seq<u8> {
    seq![67u8, 111u8, 110u8, 116u8, 101u8, 110u8, 116u8, 45u8, 84u8, 121u8, 112u8, 101u8, 58u8, 32u8, 116u8, 101u8, 120u8, 116u8, 47u8, 112u8, 108u8, 97u8, 105u8, 110u8, 13u8, 10u8]
}

/// The bytes of `"Content-Type: text/plain\r\n"`, as a vector.
pub fn content_type_text_vec() -> (v: Vec<u8>)
    ensures
        v@ == content_type_text(),
{
    let mut v: Vec<u8> = Vec::new();
    v.push(67);
    v.push(111);
    v.push(110);
    v.push(116);
    v.push(101);
    v.push(110);
    v.push(116);
    v.push(45);
    v.push(84);
    v.push(121);
    v.push(112);
    v.push(101);
    v.push(58);
    v.push(32);
    v.push(116);
    v.push(101);
    v.push(120);
    v.push(116);
    v.push(47);
    v.push(112);
    v.push(108);
    v.push(97);
    v.push(105);
    v.push(110);
    v.push(13);
    v.push(10);
    proof {
        assert(v@ =~= content_type_text());
    }
    v
}

/// The bytes of `"Content-Type: application/octet-stream\r\n"`.
pub open spec fn content_type_octet() -> Seq<u8> {
    seq![67u8, 111u8, 110u8, 116u8, 101u8, 110u8, 116u8, 45u8, 84u8, 121u8, 112u8, 101u8, 58u8, 32u8, 97u8, 112u8, 112u8, 108u8, 105u8, 99u8, 97u8, 116u8, 105u8, 111u8, 110u8, 47u8, 111u8, 99u8, 116u8, 101u8, 116u8, 45u8, 115u8, 116u8, 114u8, 101u8, 97u8, 109u8, 13u8, 10u8]
}

/// The bytes of `"Content-Type: application/octet-stream\r\n"`, as a vector.
pub fn content_type_octet_vec() -> (v: Vec<u8>)
    ensures
        v@ == content_type_octet(),
{
    let mut v: Vec<u8> = Vec::new();
    v.push(67);
    v.push(111);
    v.push(110);
    v.push(116);
    v.push(101);
    v.push(110);
    v.push(116);
    v.push(45);
    v.push(84);
    v.push(121);
    v.push(112);
    v.push(101);
    v.push(58);
    v.push(32);
    v.push(97);
    v.push(112);
    v.push(112);
    v.push(108);
    v.push(105);
    v.push(99);
    v.push(97);
    v.push(116);
    v.push(105);
    v.push(111);
    v.push(110);
    v.push(47);
    v.push(111);
    v.push(99);
    v.push(116);
    v.push(101);
    v.push(116);
    v.push(45);
    v.push(115);
    v.push(116);
    v.push(114);
    v.push(101);
    v.push(97);
    v.push(109);
    v.push(13);
    v.push(10);
    proof {
        assert(v@ =~= content_type_octet());
    }
    v
}

/// The bytes of `"Content-Length: "`.
pub open spec fn content_length_prefix() -> Seq<u8> {
    seq![67u8, 111u8, 110u8, 116u8, 101u8, 110u8, 116u8, 45u8, 76u8, 101u8, 110u8, 103u8, 116u8, 104u8, 58u8, 32u8]
}

/// The bytes of `"Content-Length: "`, as a vector.
pub fn content_length_prefix_vec() -> (v: Vec<u8>)
    ensures
        v@ == content_length_prefix(),
{
    let mut v: Vec<u8> = Vec::new();
    v.push(67);
    v.push(111);
    v.push(110);
    v.push(116);
    v.push(101);
    v.push(110);
    v.push(116);
    v.push(45);
    v.push(76);
    v.push(101);
    v.push(110);
    v.push(103);
    v.push(116);
    v.push(104);
    v.push(58);
    v.push(32);
    proof {
        assert(v@ =~= content_length_prefix());
    }
    v
}

/// The bytes of `"\r\n"`.
pub open spec fn crlf() -> Seq<u8> {
    seq![13u8, 10u8]
}

/// The bytes of `"\r\n"`, as a vector.
pub fn crlf_vec() -> (v: Vec<u8>)
    ensures
        v@ == crlf(),
{
    let mut v: Vec<u8> = Vec::new();
    v.push(13);
    v.push(10);
    proof {
        assert(v@ =~= crlf());
    }
    v
}

/// The bytes of `"Host"`.
pub open spec fn host_name() -> Seq<u8> {
    seq![72u8, 111u8, 115u8, 116u8]
}

/// The bytes of `"Host"`, as a vector.
pub fn host_name_vec() -> (v: Vec<u8>)
    ensures
        v@ == host_name(),
{
    let mut v: Vec<u8> = Vec::new();
    v.push(72);
    v.push(111);
    v.push(115);
    v.push(116);
    proof {
        assert(v@ =~= host_name());
    }
    v
}

/// The bytes of `"User-Agent"`.
pub open spec fn user_agent_name() -> Seq<u8> {
    seq![85u8, 115u8, 101u8, 114u8, 45u8, 65u8, 103u8, 101u8, 110u8, 116u8]
}

/// The bytes of `"User-Agent"`, as a vector.
pub fn user_agent_name_vec() -> (v: Vec<u8>)
    ensures
        v@ == user_agent_name(),
{
    let mut v: Vec<u8> = Vec::new();
    v.push(85);
    v.push(115);
    v.push(101);
    v.push(114);
    v.push(45);
    v.push(65);
    v.push(103);
    v.push(101);
    v.push(110);
    v.push(116);
    proof {
        assert(v@ =~= user_agent_name());
    }
    v
}

/// The bytes of `"Accept-Encoding"`.
pub open spec fn accept_encoding_name() -> Seq<u8> {
    seq![65u8, 99u8, 99u8, 101u8, 112u8, 116u8, 45u8, 69u8, 110u8, 99u8, 111u8, 100u8, 105u8, 110u8, 103u8]
}

/// The bytes of `"Accept-Encoding"`, as a vector.
pub fn accept_encoding_name_vec() -> (v: Vec<u8>)
    ensures
        v@ == accept_encoding_name(),
{
    let mut v: Vec<u8> = Vec::new();
    v.push(65);
    v.push(99);
    v.push(99);
    v.push(101);
    v.push(112);
    v.push(116);
    v.push(45);
    v.push(69);
    v.push(110);
    v.push(99);
    v.push(111);
    v.push(100);
    v.push(105);
    v.push(110);
    v.push(103);
    proof {
        assert(v@ =~= accept_encoding_name());
    }
    v
}

/// The bytes of `"Content-Length"`.
pub open spec fn content_length_name() -> Seq<u8> {
    seq![67u8, 111u8, 110u8, 116u8, 101u8, 110u8, 116u8, 45u8, 76u8, 101u8, 110u8, 103u8, 116u8, 104u8]
}

/// The bytes of `"Content-Length"`, as a vector.
pub fn content_length_name_vec() -> (v: Vec<u8>)
    ensures
        v@ == content_length_name(),
{
    let mut v: Vec<u8> = Vec::new();
    v.push(67);
    v.push(111);
    v.push(110);
    v.push(116);
    v.push(101);
    v.push(110);
    v.push(116);
    v.push(45);
    v.push(76);
    v.push(101);
    v.push(110);
    v.push(103);
    v.push(116);
    v.push(104);
    proof {
        assert(v@ =~= content_length_name());
    }
    v
}

/// The bytes of `"/"`.
pub open spec fn root_path() -> Seq<u8> {
    seq![47u8]
}

/// The bytes of `"/"`, as a vector.
pub fn root_path_vec() -> (v: Vec<u8>)
    ensures
        v@ == root_path(),
{
    let mut v: Vec<u8> = Vec::new();
    v.push(47);
    proof {
        assert(v@ =~= root_path());
    }
    v
}

/// The bytes of `"/echo/"`.
pub open spec fn echo_prefix() -> Seq<u8> {
    seq![47u8, 101u8, 99u8, 104u8, 111u8, 47u8]
}

/// The bytes of `"/echo/"`, as a vector.
pub fn echo_prefix_vec() -> (v: Vec<u8>)
    ensures
        v@ == echo_prefix(),
{
    let mut v: Vec<u8> = Vec::new();
    v.push(47);
    v.push(101);
    v.push(99);
    v.push(104);
    v.push(111);
    v.push(47);
    proof {
        assert(v@ =~= echo_prefix());
    }
    v
}

/// The bytes of `"/user-agent"`.
pub open spec fn user_agent_prefix() -> Seq<u8> {
    seq![47u8, 117u8, 115u8, 101u8, 114u8, 45u8, 97u8, 103u8, 101u8, 110u8, 116u8]
}

/// The bytes of `"/user-agent"`, as a vector.
pub fn user_agent_prefix_vec() -> (v: Vec<u8>)
    ensures
        v@ == user_agent_prefix(),
{
    let mut v: Vec<u8> = Vec::new();
    v.push(47);
    v.push(117);
    v.push(115);
    v.push(101);
    v.push(114);
    v.push(45);
    v.push(97);
    v.push(103);
    v.push(101);
    v.push(110);
    v.push(116);
    proof {
        assert(v@ =~= user_agent_prefix());
    }
    v
}

/// The bytes of `"/files/"`.
pub open spec fn files_prefix() -> Seq<u8> {
    seq![47u8, 102u8, 105u8, 108u8, 101u8, 115u8, 47u8]
}

/// The bytes of `"/files/"`, as a vector.
pub fn files_prefix_vec() -> (v: Vec<u8>)
    ensures
        v@ == files_prefix(),
{
    let mut v: Vec<u8> = Vec::new();
    v.push(47);
    v.push(102);
    v.push(105);
    v.push(108);
    v.push(101);
    v.push(115);
    v.push(47);
    proof {
        assert(v@ =~= files_prefix());
    }
    v
}


/// True when `p` begins with the prefix `q`.
pub open spec fn starts_with(p: Seq<u8>, q: Seq<u8>) -> bool {
    p.len() >= q.len() && p.subrange(0, q.len() as int) == q
}

/// Compare two byte vectors for equality.
pub fn bytes_eq(a: &Vec<u8>, b: &Vec<u8>) -> (r: bool)
    ensures
        r == (a@ == b@),
{
    if a.len() != b.len() {
        assert(a@ != b@);
        return false;
    }
    let mut i: usize = 0;
    while i < a.len()
        invariant
            i <= a.len(),
            a@.len() == b@.len(),
            forall|k: int| 0 <= k < i ==> a@[k] == b@[k],
        decreases a.len() - i,
    {
        if a[i] != b[i] {
            return false;
        }
        i = i + 1;
    }
    proof {
        assert(a@ =~= b@);
    }
    true
}

/// Decide whether `p` begins with the prefix `q`.
pub fn starts_with_bytes(p: &Vec<u8>, q: &Vec<u8>) -> (r: bool)
    ensures
        r == starts_with(p@, q@),
{
    if p.len() < q.len() {
        return false;
    }
    let mut i: usize = 0;
    while i < q.len()
        invariant
            i <= q.len(),
            q@.len() <= p@.len(),
            forall|k: int| 0 <= k < i ==> p@[k] == q@[k],
        decreases q.len() - i,
    {
        if p[i] != q[i] {
            assert(p@.subrange(0, q@.len() as int)[i as int] != q@[i as int]);
            return false;
        }
        i = i + 1;
    }
    proof {
        assert(p@.subrange(0, q@.len() as int) =~= q@);
    }
    true
}

/// Copy the bytes of `v` between `from` and `to` into a fresh vector.
pub fn subvec(v: &Vec<u8>, from: usize, to: usize) -> (r: Vec<u8>)
    requires
        from <= to <= v@.len(),
    ensures
        r@ == v@.subrange(from as int, to as int),
{
    let mut r: Vec<u8> = Vec::new();
    let mut i: usize = from;
    while i < to
        invariant
            from <= i <= to <= v@.len(),
            r@ == v@.subrange(from as int, i as int),
        decreases to - i,
    {
        r.push(v[i]);
        proof {
            assert(r@ =~= v@.subrange(from as int, (i + 1) as int));
        }
        i = i + 1;
    }
    r
}

/// Append the bytes of `tail` to `v`.
pub fn append_bytes(v: Vec<u8>, tail: &Vec<u8>) -> (r: Vec<u8>)
    ensures
        r@ == v@ + tail@,
{
    let ghost v0 = v@;
    let mut v = v;
    let mut i: usize = 0;
    proof {
        assert(v@ =~= v0 + tail@.subrange(0, 0));
    }
    while i < tail.len()
        invariant
            i <= tail@.len(),
            v@ == v0 + tail@.subrange(0, i as int),
        decreases tail@.len() - i,
    {
        v.push(tail[i]);
        proof {
            assert(v@ =~= v0 + tail@.subrange(0, (i + 1) as int));
        }
        i = i + 1;
    }
    proof {
        assert(tail@.subrange(0, tail@.len() as int) =~= tail@);
    }
    v
}

} // verus!

