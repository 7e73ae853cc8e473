use vstd::prelude::*;

verus! {

/// `std::io::Error`, carried through unchanged.
#[verifier::external_type_specification]
#[verifier::external_body]
pub struct ExIoError(std::io::Error);

/// Whether the kind of an I/O error is `WouldBlock`, the error a
/// non-blocking socket reports when it cannot go on without waiting.
pub uninterp spec fn is_would_block(e: std::io::Error) -> bool;

/// Compares `std::io::Error::kind` with `ErrorKind::WouldBlock`. The kind
/// is a function of the error alone, which the name above stands for.
#[verifier::external_body]
pub(crate) fn would_block(e: &std::io::Error) -> (b: bool)
    ensures
        b == is_would_block(*e),
{
    e.kind() == std::io::ErrorKind::WouldBlock
}

/// The outcome of a send on a non-blocking socket, where `WouldBlock`
/// counts as done: every other error is passed on.
pub open spec fn settled(r: std::io::Result<usize>) -> std::io::Result<()> {
    match r {
        Ok(_) => Ok(()),
        Err(e) => if is_would_block(e) {
            Ok(())
        } else {
            Err(e)
        },
    }
}

/// A send that would block counts as done; any other error is passed on.
pub fn cvt_send_res(r: std::io::Result<usize>) -> (out: std::io::Result<()>)
    ensures
        out == settled(r),
{
    match r {
        Ok(_sent) => Ok(()),
        Err(e) => {
            if would_block(&e) {
                Ok(())
            } else {
                Err(e)
            }
        },
    }
}

/// The end of a receive loop, which only ever stops on an error: running
/// out of packets (`WouldBlock`) is the normal end, any other error is
/// passed on. A loop that returns without an error is not accepted.
pub fn cvt_recv_res(r: std::io::Result<()>) -> (out: std::io::Result<()>)
    requires
        r is Err,
    ensures
        match r {
            Ok(_) => false,
            Err(e) => out == (if is_would_block(e) {
                Ok::<(), std::io::Error>(())
            } else {
                Err(e)
            }),
        },
{
    match r {
        Ok(()) => {
            proof {
                assert(false);
            }
            Ok(())
        },
        Err(e) => {
            if would_block(&e) {
                Ok(())
            } else {
                Err(e)
            }
        },
    }
}

/// A send result settles to success exactly when the send succeeded or
/// would have blocked; every other error comes out unchanged, so none is
/// swallowed and none is replaced.
pub proof fn lemma_settled_passes_real_errors(r: std::io::Result<usize>)
    ensures
        r is Ok ==> settled(r) is Ok,
        r matches Err(e) ==> (is_would_block(e) <==> settled(r) is Ok),
        r matches Err(e) ==> (!is_would_block(e) ==> settled(r) == Err::<(), std::io::Error>(e)),
{
}

} // verus!
