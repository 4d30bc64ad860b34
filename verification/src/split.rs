//! The stream splitter of the raw relay: a read fills a fixed buffer, and the
//! buffer is cut into frames, each of which starts with its own two-byte
//! little-endian length (header included). From a server, bytes two to five
//! of a frame name the client it is for.
use crate::codec::copy_range;
use vstd::prelude::*;

verus! {

/// The size of the read buffer.
pub const BUF_LEN: usize = 8192;

/// Where one frame goes.
#[derive(Debug, Clone, PartialEq, Eq)]
pub enum Route {
    /// To the client with this id (from a server).
    ToClient(i32, Vec<u8>),
    /// To the server (from a client).
    ToServer(Vec<u8>),
}

/// A [`Route`] with its frame as a sequence.
pub enum RouteView {
    ToClient(i32, Seq<u8>),
    ToServer(Seq<u8>),
}

impl View for Route {
    type V = RouteView;

    open spec fn view(&self) -> RouteView {
        match self {
            Route::ToClient(id, f) => RouteView::ToClient(*id, f@),
            Route::ToServer(f) => RouteView::ToServer(f@),
        }
    }
}

/// The length that the frame starting at `j` announces.
pub open spec fn frame_len(buf: Seq<u8>, j: int) -> int {
    buf[j] as int + buf[j + 1] as int * 256
}

/// The client that the frame from a server starting at `j` is routed to:
/// the four bytes after the length, or-ed together.
pub open spec fn route_id(buf: Seq<u8>, j: int) -> i32 {
    (buf[j + 2] | buf[j + 3] | buf[j + 4] | buf[j + 5]) as i32
}

/// The frames that the first `total` bytes of `buf` hold from position `j`
/// on, as (start, end) pairs. Cutting stops when at most two bytes are left,
/// or at a zero length, or at a length that runs past the data.
pub open spec fn frames_from(buf: Seq<u8>, total: int, j: int) -> Seq<(int, int)>
    decreases total - j,
{
    if total - j <= 2 || j < 0 {
        Seq::empty()
    } else {
        let len = frame_len(buf, j);
        if len != 0 && total - j >= len {
            seq![(j, j + len)] + frames_from(buf, total, j + len)
        } else {
            Seq::empty()
        }
    }
}

/// Where cutting stops: the start of the bytes that no frame took.
pub open spec fn rest_from(buf: Seq<u8>, total: int, j: int) -> int
    decreases total - j,
{
    if total - j <= 2 || j < 0 {
        j
    } else {
        let len = frame_len(buf, j);
        if len != 0 && total - j >= len {
            rest_from(buf, total, j + len)
        } else {
            j
        }
    }
}

/// Whether routing a server's frames reads only inside the buffer: the
/// client id of a frame is read from the four bytes after its length, which
/// for a short frame near the end of a full buffer lie past it.
pub open spec fn ids_in_bounds(buf: Seq<u8>, total: int) -> bool {
    forall|k: int|
        0 <= k < frames_from(buf, total, 0).len() ==> #[trigger] frames_from(buf, total, 0)[k].0
            + 5 < buf.len()
}

/// Where the frame `f` of `buf` goes.
pub open spec fn route_of(buf: Seq<u8>, from_server: bool, f: (int, int)) -> RouteView {
    if from_server {
        RouteView::ToClient(route_id(buf, f.0), buf.subrange(f.0, f.1))
    } else {
        RouteView::ToServer(buf.subrange(f.0, f.1))
    }
}

/// The routes of the frames, in the order of the frames.
pub open spec fn routes(buf: Seq<u8>, total: int, from_server: bool) -> Seq<RouteView> {
    frames_from(buf, total, 0).map_values(|f: (int, int)| route_of(buf, from_server, f))
}

/// The buffer after the bytes that no frame took have been moved to its
/// front (every other byte stays).
pub open spec fn compacted(buf: Seq<u8>, total: int) -> Seq<u8> {
    let r = rest_from(buf, total, 0);
    Seq::new(buf.len(), |k: int| if k < total - r { buf[r + k] } else { buf[k] })
}

/// Moves `buf[start..end]` to the front of `buf`.
#[verifier::external_body]
fn move_to_front(buf: &mut Vec<u8>, start: usize, end: usize)
    requires
        start <= end <= old(buf)@.len(),
    ensures
        final(buf)@.len() == old(buf)@.len(),
        forall|k: int|
            0 <= k < final(buf)@.len() ==> #[trigger] final(buf)@[k] == if k < end - start {
                old(buf)@[start + k]
            } else {
                old(buf)@[k]
            },
{
    copy_in_place::copy_in_place(buf.as_mut_slice(), start..end, 0)
}

proof fn lemma_frames_step(buf: Seq<u8>, total: int, j: int)
    requires
        0 <= j,
        total - j > 2,
        frame_len(buf, j) != 0,
        total - j >= frame_len(buf, j),
    ensures
        frames_from(buf, total, j) == seq![(j, j + frame_len(buf, j))] + frames_from(
            buf,
            total,
            j + frame_len(buf, j),
        ),
        rest_from(buf, total, j) == rest_from(buf, total, j + frame_len(buf, j)),
{
}

proof fn lemma_frames_bounds(buf: Seq<u8>, total: int, j: int)
    requires
        0 <= j <= total,
    ensures
        j <= rest_from(buf, total, j) <= total,
        forall|k: int|
            0 <= k < frames_from(buf, total, j).len() ==> {
                let f = #[trigger] frames_from(buf, total, j)[k];
                j <= f.0 < f.1 <= rest_from(buf, total, j)
            },
    decreases total - j,
{
    if total - j <= 2 {
    } else {
        let len = frame_len(buf, j);
        if len != 0 && total - j >= len {
            lemma_frames_bounds(buf, total, j + len);
            assert forall|k: int| 0 <= k < frames_from(buf, total, j).len() implies {
                let f = #[trigger] frames_from(buf, total, j)[k];
                j <= f.0 < f.1 <= rest_from(buf, total, j)
            } by {
                if k > 0 {
                    assert(frames_from(buf, total, j)[k] == frames_from(buf, total, j + len)[k - 1]);
                }
            }
        }
    }
}

/// The frames from position `j` on follow one another, each as long as its
/// own length says, starting at `j` and ending where cutting stops; cutting
/// stops at most two bytes before the end, or at a zero length, or at a
/// length that runs past the data.
pub proof fn lemma_frames_tile_from(buf: Seq<u8>, total: int, j: int)
    requires
        0 <= j <= total,
    ensures
        ({
            let f = frames_from(buf, total, j);
            let r = rest_from(buf, total, j);
            &&& f.len() == 0 ==> r == j
            &&& f.len() > 0 ==> f[0].0 == j && f[f.len() - 1].1 == r
            &&& forall|k: int| 0 <= k < f.len() - 1 ==> #[trigger] f[k].1 == f[k + 1].0
            &&& forall|k: int|
                0 <= k < f.len() ==> #[trigger] f[k].1 - f[k].0 == frame_len(buf, f[k].0) && f[k].0
                    < f[k].1
            &&& total - r <= 2 || frame_len(buf, r) == 0 || frame_len(buf, r) > total - r
        }),
    decreases total - j,
{
    if total - j > 2 {
        let len = frame_len(buf, j);
        if len != 0 && total - j >= len {
            lemma_frames_tile_from(buf, total, j + len);
            let f = frames_from(buf, total, j);
            let g = frames_from(buf, total, j + len);
            assert(f == seq![(j, j + len)] + g);
            assert forall|k: int| 0 <= k < f.len() - 1 implies #[trigger] f[k].1 == f[k + 1].0 by {
                if k > 0 {
                    assert(f[k] == g[k - 1]);
                    assert(f[k + 1] == g[k]);
                }
            }
            assert forall|k: int| 0 <= k < f.len() implies #[trigger] f[k].1 - f[k].0 == frame_len(
                buf,
                f[k].0,
            ) && f[k].0 < f[k].1 by {
                if k > 0 {
                    assert(f[k] == g[k - 1]);
                }
            }
        }
    }
}

/// The frames of a read follow one another from the start of the buffer to
/// where cutting stops (see [`lemma_frames_tile_from`]).
pub proof fn lemma_frames_tile(buf: Seq<u8>, total: int)
    requires
        0 <= total <= buf.len(),
    ensures
        ({
            let f = frames_from(buf, total, 0);
            let r = rest_from(buf, total, 0);
            &&& f.len() == 0 ==> r == 0
            &&& f.len() > 0 ==> f[0].0 == 0 && f[f.len() - 1].1 == r
            &&& forall|k: int| 0 <= k < f.len() - 1 ==> #[trigger] f[k].1 == f[k + 1].0
            &&& forall|k: int|
                0 <= k < f.len() ==> #[trigger] f[k].1 - f[k].0 == buf[f[k].0] as int + 256
                    * buf[f[k].0 + 1] as int && f[k].0 < f[k].1
            &&& total - r <= 2 || buf[r] as int + 256 * buf[r + 1] as int == 0 || buf[r] as int
                + 256 * buf[r + 1] as int > total - r
        }),
{
    lemma_frames_tile_from(buf, total, 0);
}

/// Each frame is routed with its own bytes: a client's frame to the
/// server, a server's frame to the client or-ed from its bytes two to five.
pub proof fn lemma_routes_carry_frames(buf: Seq<u8>, total: int, from_server: bool)
    requires
        0 <= total <= buf.len(),
    ensures
        routes(buf, total, from_server).len() == frames_from(buf, total, 0).len(),
        forall|k: int|
            0 <= k < routes(buf, total, from_server).len() ==> {
                let f = frames_from(buf, total, 0)[k];
                #[trigger] routes(buf, total, from_server)[k] == if from_server {
                    RouteView::ToClient(
                        (buf[f.0 + 2] | buf[f.0 + 3] | buf[f.0 + 4] | buf[f.0 + 5]) as i32,
                        buf.subrange(f.0, f.1),
                    )
                } else {
                    RouteView::ToServer(buf.subrange(f.0, f.1))
                }
            },
{
}

/// A read whose first two bytes, little-endian, announce exactly the
/// number of bytes read (any number from three up to the buffer's size) is
/// one whole frame: a client's goes to the server whole, a server's goes
/// whole to the client or-ed from its bytes two to five, and nothing is
/// left over.
pub proof fn lemma_whole_read_is_one_frame(buf: Seq<u8>, n: int, from_server: bool)
    requires
        3 <= n <= buf.len(),
        buf[0] as int + 256 * buf[1] as int == n,
    ensures
        routes(buf, n, from_server) == seq![
            if from_server {
                RouteView::ToClient(
                    (buf[2] | buf[3] | buf[4] | buf[5]) as i32,
                    buf.subrange(0, n),
                )
            } else {
                RouteView::ToServer(buf.subrange(0, n))
            },
        ],
        rest_from(buf, n, 0) == n,
        compacted(buf, n) == buf,
{
    assert(frames_from(buf, n, n) =~= Seq::<(int, int)>::empty());
    assert(rest_from(buf, n, n) == n);
    assert(frame_len(buf, 0) == n);
    assert(rest_from(buf, n, 0) == rest_from(buf, n, n));
    assert(frames_from(buf, n, 0) =~= seq![(0int, n)]);
    assert(routes(buf, n, from_server) =~= seq![route_of(buf, from_server, (0int, n))]);
    assert(compacted(buf, n) =~= buf);
}

/// Whether a server's frames in the first `total` bytes of `buf` can be
/// routed without reading past the buffer (see [`ids_in_bounds`]).
pub fn ids_fit(buf: &[u8], total: usize) -> (res: bool)
    requires
        total <= buf@.len(),
    ensures
        res == ids_in_bounds(buf@, total as int),
{
    let ghost data = buf@;
    let ghost all = frames_from(data, total as int, 0);
    let ghost mut cnt: int = 0;
    let n: usize = buf.len();
    let mut i: usize = total;
    let mut j: usize = 0;
    proof {
        lemma_frames_bounds(data, total as int, 0);
    }
    while i > 2
        invariant
            data == buf@,
            data.len() == n,
            j + i == total,
            total <= n,
            all == frames_from(data, total as int, 0),
            0 <= cnt <= all.len(),
            all.subrange(cnt, all.len() as int) == frames_from(data, total as int, j as int),
            forall|k: int| 0 <= k < cnt ==> #[trigger] all[k].0 + 5 < n,
        decreases i,
    {
        let len: usize = (buf[j] as usize) | ((buf[j + 1] as usize) << 8);
        proof {
            let b0 = data[j as int];
            let b1 = data[j + 1];
            assert((b0 as usize) | ((b1 as usize) << 8) == b0 as usize + b1 as usize * 256)
                by (bit_vector);
        }
        if len != 0 && i >= len {
            proof {
                lemma_frames_step(data, total as int, j as int);
                let fj = frames_from(data, total as int, j as int);
                assert(fj.subrange(1, fj.len() as int) =~= frames_from(data, total as int, j + len));
                assert(all[cnt] == all.subrange(cnt, all.len() as int)[0]);
                assert(all.subrange(cnt + 1, all.len() as int) =~= all.subrange(
                    cnt,
                    all.len() as int,
                ).subrange(1, all.len() - cnt));
            }
            if n - j <= 5 {
                proof {
                    assert(all[cnt].0 == j);
                    assert(!(frames_from(data, total as int, 0)[cnt].0 + 5 < data.len()));
                }
                return false;
            }
            proof {
                cnt = cnt + 1;
            }
            i = i - len;
            j = j + len;
        } else {
            proof {
                assert(frames_from(data, total as int, j as int) =~= Seq::<(int, int)>::empty());
            }
            return true;
        }
    }
    proof {
        assert(frames_from(data, total as int, j as int) =~= Seq::<(int, int)>::empty());
    }
    true
}

/// Cuts the first `total` bytes of `buf` into frames and routes each: a
/// server's frame to the client that it names, a client's frame to the
/// server. The bytes that no frame took are moved to the front of `buf`.
pub fn split_frames(buf: &mut Vec<u8>, total: usize, from_server: bool) -> (res: Vec<Route>)
    requires
        total <= old(buf)@.len(),
        from_server ==> ids_in_bounds(old(buf)@, total as int),
    ensures
        res@.map_values(|r: Route| r@) == routes(old(buf)@, total as int, from_server),
        final(buf)@ == compacted(old(buf)@, total as int),
{
    let ghost data = buf@;
    let ghost all = frames_from(data, total as int, 0);
    let ghost rest = rest_from(data, total as int, 0);
    let mut out: Vec<Route> = Vec::new();
    let mut i: usize = total;
    let mut j: usize = 0;
    let n: usize = buf.len();
    proof {
        lemma_frames_bounds(data, total as int, 0);
    }
    if i > 2 {
        loop
            invariant_except_break
                i > 2,
                buf@ == data,
            invariant
                total <= data.len(),
                data.len() == n,
                j + i == total,
                all == frames_from(data, total as int, 0),
                rest == rest_from(data, total as int, 0),
                rest == rest_from(data, total as int, j as int),
                out@.len() <= all.len(),
                all.subrange(out@.len() as int, all.len() as int) == frames_from(
                    data,
                    total as int,
                    j as int,
                ),
                out@.map_values(|r: Route| r@) == routes(data, total as int, from_server).take(
                    out@.len() as int,
                ),
                from_server ==> ids_in_bounds(data, total as int),
            ensures
                out@.map_values(|r: Route| r@) == routes(data, total as int, from_server),
                buf@ == compacted(data, total as int),
            decreases i,
        {
            let len: usize = (buf[j] as usize) | ((buf[j + 1] as usize) << 8);
            proof {
                let b0 = data[j as int];
                let b1 = data[j + 1];
                assert((b0 as usize) | ((b1 as usize) << 8) == b0 as usize + b1 as usize * 256)
                    by (bit_vector);
            }
            if len != 0 && i >= len {
                let ghost k = out@.len() as int;
                proof {
                    lemma_frames_step(data, total as int, j as int);
                    let fj = frames_from(data, total as int, j as int);
                    assert(fj.len() > 0);
                    assert(fj.subrange(1, fj.len() as int) =~= frames_from(
                        data,
                        total as int,
                        j + len,
                    ));
                    assert(all[k] == all.subrange(k, all.len() as int)[0]);
                    assert(all[k] == (j as int, j + len));
                    assert(all.subrange(k + 1, all.len() as int) =~= all.subrange(
                        k,
                        all.len() as int,
                    ).subrange(1, all.len() - k));
                }
                let frame = copy_range(buf.as_slice(), j, j + len);
                if from_server {
                    proof {
                        assert(all[k].0 + 5 < data.len());
                    }
                    let id: i32 = (buf[j + 2] | buf[j + 3] | buf[j + 4] | buf[j + 5]) as i32;
                    out.push(Route::ToClient(id, frame));
                } else {
                    out.push(Route::ToServer(frame));
                }
                proof {
                    assert(out@.map_values(|r: Route| r@) =~= routes(
                        data,
                        total as int,
                        from_server,
                    ).take(out@.len() as int));
                }
                i = i - len;
                j = j + len;
                if i == 0 {
                    proof {
                        assert(out@.len() == all.len());
                        assert(routes(data, total as int, from_server).take(out@.len() as int)
                            =~= routes(data, total as int, from_server));
                        assert(compacted(data, total as int) =~= data);
                    }
                    break;
                }
                if i <= 2 {
                    move_to_front(buf, j, total);
                    proof {
                        assert(out@.len() == all.len());
                        assert(routes(data, total as int, from_server).take(out@.len() as int)
                            =~= routes(data, total as int, from_server));
                        assert(buf@ =~= compacted(data, total as int));
                    }
                    break;
                }
            } else {
                proof {
                    assert(frames_from(data, total as int, j as int) =~= Seq::<(int, int)>::empty());
                    assert(out@.len() == all.len());
                    assert(routes(data, total as int, from_server).take(out@.len() as int)
                        =~= routes(data, total as int, from_server));
                }
                if j != 0 && j < total {
                    move_to_front(buf, j, total);
                }
                proof {
                    assert(buf@ =~= compacted(data, total as int));
                }
                break;
            }
        }
    } else {
        proof {
            assert(all =~= Seq::<(int, int)>::empty());
            assert(out@.map_values(|r: Route| r@) =~= routes(data, total as int, from_server));
            assert(compacted(data, total as int) =~= data);
        }
    }
    out
}

} // verus!
