"""Independent model of ML-DSA-44 key generation and deterministic signing.

Transforms are computed as direct evaluation / interpolation at the 256 roots
zeta^(2*brv8(i)+1) and products c*s as schoolbook negacyclic multiplication, so
nothing here shares code or tables with the Rust library. Prints the public key,
secret key and signature for the all-zero seed and the message [1, 2, 3] as hex;
tests/known_answers.rs holds these values.
"""
import hashlib

Q = 8380417
N = 256
ZETA = 1753
K, L, ETA, TAU, BETA, OMEGA = 4, 4, 2, 39, 78, 80
GAMMA1 = 1 << 17
GAMMA2 = (Q - 1) // 88
D = 13


def shake256(data, n):
    return hashlib.shake_256(bytes(data)).digest(n)


def shake128(data, n):
    return hashlib.shake_128(bytes(data)).digest(n)


def brv8(i):
    return int('{:08b}'.format(i)[::-1], 2)


ROOTS = [pow(ZETA, 2 * brv8(i) + 1, Q) for i in range(N)]
POW = [[pow(r, j, Q) for j in range(N)] for r in ROOTS]
IPOW = [[pow(pow(r, Q - 2, Q), j, Q) for j in range(N)] for r in ROOTS]
INV_N = pow(N, Q - 2, Q)


def ntt(w):
    return [sum(w[j] * row[j] for j in range(N)) % Q for row in POW]


def intt(wh):
    return [INV_N * sum(wh[i] * IPOW[i][j] for i in range(N)) % Q for j in range(N)]


def polymul(a, b):
    r = [0] * N
    for i in range(N):
        if a[i] == 0:
            continue
        for j in range(N):
            k = i + j
            if k < N:
                r[k] += a[i] * b[j]
            else:
                r[k - N] -= a[i] * b[j]
    return [x % Q for x in r]


def rej_ntt_poly(seed):
    stream = shake128(seed, 168 * 40)
    out, pos = [], 0
    while len(out) < N:
        c = stream[pos] + 256 * stream[pos + 1] + 65536 * (stream[pos + 2] & 0x7F)
        pos += 3
        if c < Q:
            out.append(c)
    return out


def rej_bounded_poly(seed):
    stream = shake256(seed, 136 * 40)
    out, pos = [], 0
    while len(out) < N:
        b = stream[pos]
        pos += 1
        for z in (b & 15, b >> 4):
            if z < 15 and len(out) < N:
                out.append((2 - z % 5) % Q)
    return out


def centered(x):
    x %= Q
    return x - Q if x > Q // 2 else x


def bits_pack(vals, width):
    acc, nbits, out = 0, 0, []
    for v in vals:
        acc |= v << nbits
        nbits += width
        while nbits >= 8:
            out.append(acc & 255)
            acc >>= 8
            nbits -= 8
    return out


def bits_unpack(data, width, count):
    acc = int.from_bytes(bytes(data), 'little')
    return [(acc >> (width * i)) & ((1 << width) - 1) for i in range(count)]


def expand_a(rho):
    return [[rej_ntt_poly(list(rho) + [s, r]) for s in range(L)] for r in range(K)]


def mat_vec(ahat, vhat):
    res = []
    for r in range(K):
        acc = [0] * N
        for s in range(L):
            acc = [(acc[i] + ahat[r][s][i] * vhat[s][i]) % Q for i in range(N)]
        res.append(acc)
    return res


def keygen(xi):
    buf = shake256(list(xi) + [K, L], 128)
    rho, rhop, key = buf[:32], buf[32:96], buf[96:]
    ahat = expand_a(rho)
    s1 = [rej_bounded_poly(list(rhop) + [r, 0]) for r in range(L)]
    s2 = [rej_bounded_poly(list(rhop) + [L + r, 0]) for r in range(K)]
    t = [[(x + y) % Q for x, y in zip(intt(p), s2[r])]
         for r, p in enumerate(mat_vec(ahat, [ntt(p) for p in s1]))]
    t1 = [[(c + (1 << (D - 1)) - 1) >> D for c in p] for p in t]
    t0 = [[c - (((c + (1 << (D - 1)) - 1) >> D) << D) for c in p] for p in t]
    pk = list(rho)
    for p in t1:
        pk += bits_pack(p, 10)
    tr = shake256(pk, 64)
    sk = list(rho) + list(key) + list(tr)
    for p in s1 + s2:
        sk += bits_pack([ETA - centered(c) for c in p], 3)
    for p in t0:
        sk += bits_pack([(1 << (D - 1)) - c for c in p], 13)
    return bytes(pk), bytes(sk), (rho, key, tr, s1, s2, [[c % Q for c in p] for p in t0], ahat)


def decompose(r):
    r %= Q
    r0 = r % (2 * GAMMA2)
    if r0 > GAMMA2:
        r0 -= 2 * GAMMA2
    if r - r0 == Q - 1:
        return 0, r0 - 1
    return (r - r0) // (2 * GAMMA2), r0


def sample_in_ball(ct):
    stream = shake256(ct, 136 * 4)
    signs = int.from_bytes(stream[:8], 'little')
    pos, c = 8, [0] * N
    for i in range(N - TAU, N):
        while True:
            j = stream[pos]
            pos += 1
            if j <= i:
                break
        c[i] = c[j]
        c[j] = Q - 1 if (signs >> (i + TAU - N)) & 1 else 1
    return c


def norm(p):
    return max(abs(centered(c)) for c in p)


def sign(msg, parts, rnd=bytes(32)):
    rho, key, tr, s1, s2, t0, ahat = parts
    mu = shake256(list(tr) + list(msg), 64)
    rhopp = shake256(list(key) + list(rnd) + list(mu), 64)
    kappa = 0
    while True:
        y = []
        for r in range(L):
            v = bits_unpack(shake256(list(rhopp) + list((kappa + r).to_bytes(2, 'little')), 576), 18, N)
            y.append([(GAMMA1 - x) % Q for x in v])
        kappa += L
        w = [intt(p) for p in mat_vec(ahat, [ntt(p) for p in y])]
        w1 = [[decompose(c)[0] for c in p] for p in w]
        enc = []
        for p in w1:
            enc += bits_pack(p, 6)
        ct = shake256(list(mu) + enc, 32)
        c = sample_in_ball(ct)
        z = [[(a + b) % Q for a, b in zip(polymul(c, s1[r]), y[r])] for r in range(L)]
        ws = [[(a - b) % Q for a, b in zip(w[r], polymul(c, s2[r]))] for r in range(K)]
        r0 = [[decompose(x)[1] for x in p] for p in ws]
        if max(norm(p) for p in z) >= GAMMA1 - BETA or max(max(abs(x) for x in p) for p in r0) >= GAMMA2 - BETA:
            continue
        ct0 = [polymul(c, t0[r]) for r in range(K)]
        h = [[1 if decompose((ws[r][i] + ct0[r][i]) % Q)[0] != decompose((ws[r][i] + ct0[r][i] - ct0[r][i]) % Q)[0] else 0
              for i in range(N)] for r in range(K)]
        if max(norm(p) for p in ct0) >= GAMMA2 or sum(map(sum, h)) > OMEGA:
            continue
        sig = list(ct)
        for p in z:
            sig += bits_pack([(GAMMA1 - centered(x)) for x in p], 18)
        hb, cnt = [0] * (OMEGA + K), 0
        for r in range(K):
            for i in range(N):
                if h[r][i]:
                    hb[cnt] = i
                    cnt += 1
            hb[OMEGA + r] = cnt
        return bytes(sig + hb)


if __name__ == '__main__':
    pk, sk, parts = keygen(bytes(32))
    sig = sign(bytes([1, 2, 3]), parts)
    print(pk.hex())
    print(sk.hex())
    print(sig.hex())
