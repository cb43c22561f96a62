//! Powers modulo an integer, step by step, and some powers of 7 modulo the group order.

use vstd::arithmetic::div_mod::{lemma_mod_twice, lemma_mul_mod_noop, lemma_small_mod};
use vstd::arithmetic::power::{lemma_pow0, lemma_pow1, lemma_pow_adds, lemma_pow_multiplies, pow};
use vstd::prelude::*;

use crate::modular::order;

verus! {

// ---------------------------------------------------------------------------------------------
// Square and multiply
// ---------------------------------------------------------------------------------------------

/// One step of square and multiply, for a zero bit of the exponent.
pub proof fn lemma_square(m: int, a: int, e: nat, h: int, h2: int)
    requires
        m > 0,
        pow(a, e) % m == h,
        (h * h) % m == h2,
    ensures
        pow(a, 2 * e) % m == h2,
{
    lemma_pow_adds(a, e, e);
    lemma_mul_mod_noop(pow(a, e), pow(a, e), m);
}

/// One step of square and multiply, for a bit of the exponent that is set.
pub proof fn lemma_square_times(m: int, a: int, e: nat, h: int, h2: int)
    requires
        m > 0,
        pow(a, e) % m == h,
        (h * h * a) % m == h2,
    ensures
        pow(a, 2 * e + 1) % m == h2,
{
    lemma_pow_adds(a, e, e);
    lemma_pow_adds(a, 2 * e, 1);
    lemma_pow1(a);
    lemma_mul_mod_noop(pow(a, e), pow(a, e), m);
    lemma_mul_mod_noop(pow(a, 2 * e), a, m);
    lemma_mul_mod_noop(h * h, a, m);
}

/// The first power of a residue is the residue.
pub proof fn lemma_first_power(m: int, a: int)
    requires
        0 < a < m,
    ensures
        pow(a, 1) % m == a,
{
    lemma_pow1(a);
    lemma_small_mod(a as nat, m as nat);
}

// ---------------------------------------------------------------------------------------------
// Powers of 7 modulo the group order
// ---------------------------------------------------------------------------------------------

/// Four steps of square and multiply with base 7: `w` is 7 to the power of the next four bits
/// `d` of the exponent.
proof fn lemma_window(e: nat, d: nat, w: int, h: int, s1: int, s2: int, s3: int, h2: int)
    requires
        pow(7, d) == w,
        pow(7, e) % order() == h,
        (h * h) % 0x73eda753299d7d483339d80809a1d80553bda402fffe5bfeffffffff00000001int == s1,
        (s1 * s1) % 0x73eda753299d7d483339d80809a1d80553bda402fffe5bfeffffffff00000001int == s2,
        (s2 * s2) % 0x73eda753299d7d483339d80809a1d80553bda402fffe5bfeffffffff00000001int == s3,
        (s3 * s3 * w) % 0x73eda753299d7d483339d80809a1d80553bda402fffe5bfeffffffff00000001int == h2,
    ensures
        pow(7, 16 * e + d) % order() == h2,
{
    reveal(order);
    let m = order();
    lemma_square(m, 7, e, h, s1);
    lemma_square(m, 7, 2 * e, s1, s2);
    lemma_square(m, 7, 4 * e, s2, s3);
    lemma_pow_adds(7, 8 * e, 8 * e);
    lemma_pow_adds(7, 16 * e, d);
    lemma_mul_mod_noop(pow(7, 8 * e), pow(7, 8 * e), m);
    lemma_mul_mod_noop(pow(7, 16 * e), w, m);
    lemma_mul_mod_noop(s3 * s3, w, m);
}

/// One step of square and multiply for a base that is congruent to `r`.
proof fn lemma_bit(a: int, r: int, e: nat, bit: nat, h: int, h2: int)
    requires
        a % order() == r,
        pow(a, e) % order() == h,
        bit == 0 ==> (h * h) % 0x73eda753299d7d483339d80809a1d80553bda402fffe5bfeffffffff00000001int == h2,
        bit == 1 ==> (h * h * r) % 0x73eda753299d7d483339d80809a1d80553bda402fffe5bfeffffffff00000001int == h2,
        bit <= 1,
    ensures
        pow(a, 2 * e + bit) % order() == h2,
{
    reveal(order);
    let m = order();
    if bit == 0 {
        lemma_square(m, a, e, h, h2);
    } else {
        lemma_pow_adds(a, e, e);
        lemma_pow_adds(a, 2 * e, 1);
        lemma_pow1(a);
        lemma_mul_mod_noop(pow(a, e), pow(a, e), m);
        lemma_mul_mod_noop(pow(a, 2 * e), a, m);
        lemma_mul_mod_noop(h * h, r, m);
        lemma_small_mod_of(a, r, m);
    }
}

/// A residue is its own residue.
pub proof fn lemma_small_mod_of(a: int, r: int, m: int)
    requires
        m > 0,
        a % m == r,
    ensures
        r % m == r,
{
    lemma_mod_twice(a, m);
}

/// The powers of 7 with an exponent of four bits.
proof fn lemma_powers_of_7()
    ensures
        pow(7, 0) == 1,
        pow(7, 1) == 7,
        pow(7, 2) == 49,
        pow(7, 3) == 343,
        pow(7, 4) == 2401,
        pow(7, 5) == 16807,
        pow(7, 6) == 117649,
        pow(7, 7) == 823543,
        pow(7, 8) == 5764801,
        pow(7, 9) == 40353607,
        pow(7, 10) == 282475249,
        pow(7, 11) == 1977326743,
        pow(7, 12) == 13841287201,
        pow(7, 13) == 96889010407,
        pow(7, 14) == 678223072849,
        pow(7, 15) == 4747561509943,
{
    lemma_pow0(7);
    lemma_pow1(7);
    lemma_pow_adds(7, 1, 1);
    lemma_pow_adds(7, 2, 1);
    lemma_pow_adds(7, 3, 1);
    lemma_pow_adds(7, 4, 1);
    lemma_pow_adds(7, 5, 1);
    lemma_pow_adds(7, 6, 1);
    lemma_pow_adds(7, 7, 1);
    lemma_pow_adds(7, 8, 1);
    lemma_pow_adds(7, 9, 1);
    lemma_pow_adds(7, 10, 1);
    lemma_pow_adds(7, 11, 1);
    lemma_pow_adds(7, 12, 1);
    lemma_pow_adds(7, 13, 1);
    lemma_pow_adds(7, 14, 1);
}

proof fn lemma_power_14_digits()
    ensures
        pow(7, 0x178da222690080nat) % order() == 0x48d1b7de5917cf008e99073786ef72a55b9640da4e40f5b10ca09fbfb2d7bad3int,
{
    lemma_powers_of_7();
    reveal(order);
    lemma_window(
        1nat,
        7,
        823543,
        0x7int,
        0x31int,
        0x961int,
        0x57f6c1int,
        0x17bd152b330f0a777int,
    );
    lemma_window(
        23nat,
        8,
        5764801,
        0x17bd152b330f0a777int,
        0x233857606b635c1936f7b8d710cac7951int,
        0x512bc175bead109e39f24e665101aadd7937b4d1465f55e3005cf31ed655ab97int,
        0x1914e077fba168556bf2cf92b07e90bf509d462c7ab99a91a4b08e84429392bcint,
        0x698c2430fd92ccbd832e5a35df40523fa6ef99beab0fe49b5dbdf311d469db02int,
    );
    lemma_window(
        376nat,
        13,
        96889010407,
        0x698c2430fd92ccbd832e5a35df40523fa6ef99beab0fe49b5dbdf311d469db02int,
        0x466719e646ca207eb1f7637e65c3c0babfb5066db3fedb7da5ec9e448a541e75int,
        0x67e2ce014fc3f4c7fdf8ea420df68ceafe0a8080952343f37cf6573e0debf2f5int,
        0x5ae8c03c99afd3e4bd8337b8e5ded20355eb70cdb6420b08d0662dcdf67000a1int,
        0x38bf38ae347376dfa1c36db7112dbaa2d6e1915fa2108b7915bf94dfb26eedc6int,
    );
    lemma_window(
        6029nat,
        10,
        282475249,
        0x38bf38ae347376dfa1c36db7112dbaa2d6e1915fa2108b7915bf94dfb26eedc6int,
        0x2d97642fe4fa605d5ea643e9167fb151f478f44aeffcac338f7d56c9a1e5e9b3int,
        0x3e8f8a8b1f40b3badcd0bc0edf157f47944bde2580293284b24048c072192457int,
        0x3793d46588ecb0004d35d444ad028932588b2621cb0286f8348db8dec0e84b47int,
        0x6ae1795cb4fd17814519a889abd7d72514f49fa73efd5da9046a6a165fd08d5eint,
    );
    lemma_window(
        96474nat,
        2,
        49,
        0x6ae1795cb4fd17814519a889abd7d72514f49fa73efd5da9046a6a165fd08d5eint,
        0x2fd6a7a8c89214dd199fbfd2014aa717d9a8bc13d453070858372c5eeb4ef1b0int,
        0x296ce748e12f4bcf68ff298073a4e09a964ad1d51ef73025922de7664b8bad34int,
        0x1e118f8913b9c3a00bff9bff21ffbb8e27b4b1fc1cc4d73be06a8467904d23f9int,
        0x6994a705af7e5dc4b571a2cfa1df9a6a6f0f2b1fbedf81f4243605211da26d5fint,
    );
    lemma_window(
        1543586nat,
        2,
        49,
        0x6994a705af7e5dc4b571a2cfa1df9a6a6f0f2b1fbedf81f4243605211da26d5fint,
        0x18790732b615531636de20fbeeacb14eee6bdc1d7fd410522fff9d6544c2abe0int,
        0x10db1f2d829d43fb1db340d0c844e3218d568ea21fda5c69771f54bcb6010abint,
        0x72d7dbaadd9efb0e9e19a68b69ce48e9ee6b2e033dceb1246ce82227bc3fee03int,
        0x32f00474bea3f8f38cba499c1b8be7467311e1e0c747735b7aeb9674c22ec6ffint,
    );
    lemma_window(
        24697378nat,
        2,
        49,
        0x32f00474bea3f8f38cba499c1b8be7467311e1e0c747735b7aeb9674c22ec6ffint,
        0x3d01763037a881c32cb5685379e8944e190714b139952f70455ae25543aeb0a6int,
        0x6f1a4baa387691568bf86652d9264cce499b1b75e87d973b646881779fff142eint,
        0x1ecc6011cf793d86c663dc8a2fcf8bd34f58da3ad8390f6adddecb138765c356int,
        0x1c92caee6b52da3d31991ed72a39c5a1b120772db534991e10e8f81233726525int,
    );
    lemma_window(
        395158050nat,
        6,
        117649,
        0x1c92caee6b52da3d31991ed72a39c5a1b120772db534991e10e8f81233726525int,
        0x9361ae2a2c6b290eb11ee782c76a751743e77650948d180274362eef3abadc6int,
        0x29f6afb054da79a24fc207f02c30e96d2c2de9c39bf2b67e22c590028ec27f49int,
        0x57832c0e48aa471e968c75769f9555cdcee2b07e588f6df64c086550fd45198fint,
        0x221ff0a58c202c159e7e44ae33cb491eec3168057975cadc32455479a54c620cint,
    );
    lemma_window(
        0x178da2226nat,
        9,
        40353607,
        0x221ff0a58c202c159e7e44ae33cb491eec3168057975cadc32455479a54c620cint,
        0x5470843d82681d5c6298da62dc3b41b087fd489c50745d5626adf0a40e95371cint,
        0x16161e56291489306d5a395b8859ceda7900661fde27b2428a88b7c9575e5f10int,
        0x693f58770e5b36d8586f06f37c982b4768e770ae3c90fe8c1b24e078b2fb0606int,
        0x6a24a0913ea35448e0a7de828883fa4f4b3599eaa2b0b9bc86dee38e900692cint,
    );
    lemma_window(
        0x178da22269nat,
        0,
        1,
        0x6a24a0913ea35448e0a7de828883fa4f4b3599eaa2b0b9bc86dee38e900692cint,
        0xc53824d5fd8465531ede89325f3821b86ae2908eacd2fa057951efd125a6b72int,
        0x3d463b5ee0b89cf88fe1cf49448c0aa4b490f2eb665e59c114cffd1ea9ef04e3int,
        0x3c3ddf60d597d4eb9e32fbb31b03ba344332dac2c8b707a31d2c0c52ae0a7d57int,
        0x358ecd248da2833fbada6d0dcf2bd81262dbc39a15df1e6e1f0134210820b8a6int,
    );
    lemma_window(
        0x178da222690nat,
        0,
        1,
        0x358ecd248da2833fbada6d0dcf2bd81262dbc39a15df1e6e1f0134210820b8a6int,
        0x5bdaebdfbe4e02476d483a2c516761c68c8b1665adbe37333b4a0b602d997714int,
        0x526138ccee2c224342b9bfa172f0397b1c41d67bc05f1af0cf2459137a5b8cefint,
        0x47edb5a7651d79461cf5c5e2b3180be6f6984db095069af58a260c8f66e09da2int,
        0x1a31d1a933ceede3e0c08ea575ba8fc75ecfbd829ed517c6f04e9671737a4820int,
    );
    lemma_window(
        0x178da2226900nat,
        8,
        5764801,
        0x1a31d1a933ceede3e0c08ea575ba8fc75ecfbd829ed517c6f04e9671737a4820int,
        0x18d78f90ea23a637168b89033a19a871e2e2044db6d00a5a73bb04f717d18d4aint,
        0x6e69cffff922462500fb687fc9cfc12b18e7622021f3499b69564b076de9169eint,
        0xecda7b7e2de8482353579555a0578203107649da48a293589214dea1f5d5fa3int,
        0xeeb55e215f72cdac3accb7ffc93e973795e9313d917102ddf5767504a3458baint,
    );
    lemma_window(
        0x178da22269008nat,
        0,
        1,
        0xeeb55e215f72cdac3accb7ffc93e973795e9313d917102ddf5767504a3458baint,
        0x6e0540d6623648a4d3bb4309b137f072c0a62f43c9fd5f83aa2af615beb2b01int,
        0x1895b328973967820bcb649d39daa4b8e7e77cd4a2e05b48c2bb9cfd62ba38b0int,
        0x5a930b647f75d72550df32a5911ba8fb5630ba3f2ca60e511908ab9d4e385504int,
        0x48d1b7de5917cf008e99073786ef72a55b9640da4e40f5b10ca09fbfb2d7bad3int,
    );
}

proof fn lemma_power_27_digits()
    ensures
        pow(7, 0x178da222690080cd7cab2aab13anat) % order() == 0x23db331906fb00b0fb0601aec766362c992c2fdc1f8fadc1ad5cfff8b48179ebint,
{
    lemma_powers_of_7();
    lemma_power_14_digits();
    lemma_window(
        0x178da222690080nat,
        12,
        13841287201,
        0x48d1b7de5917cf008e99073786ef72a55b9640da4e40f5b10ca09fbfb2d7bad3int,
        0x6fff1208e32fcf4d4bf1dd45e4c10b9ea531612d9e9492a34e8dfee9316ef15cint,
        0x3a4596c8f1224700600ca07a421886909f91ff6655c40a147a6dc711d072f7f1int,
        0x69ebd8ae5bb359dbc1c18803deba2e8c9bafd16d292ab92eb786c7841efbf53eint,
        0x24b533f993ea73fc1bdefb497c052817651608d8a75235d003cd3c0f4e191172int,
    );
    lemma_window(
        0x178da222690080cnat,
        13,
        96889010407,
        0x24b533f993ea73fc1bdefb497c052817651608d8a75235d003cd3c0f4e191172int,
        0x485cc8f0e8ff84da5f1860a3df88498f6718717f6d344a7d1d9d92fd2b28a8c0int,
        0x116b1f71f8199466938c80d43c856962b51589c8bfe8371781880cf1943abb8eint,
        0x299c6f815046fdce878e156a3ba9f7b8c233445a159076e454741114b7701d9eint,
        0x604f5ae78ed78140ea29d53f49f69a956c83c8fcb12400d358ca807a2da651e9int,
    );
    lemma_window(
        0x178da222690080cdnat,
        7,
        823543,
        0x604f5ae78ed78140ea29d53f49f69a956c83c8fcb12400d358ca807a2da651e9int,
        0x15e74910b23402c7ed64bb08e1003a0a343f7a8664d83ac64b790faeda410546int,
        0x2da4ae9b59d7d38b759498bde9023d20d3079a78b414aacb78094a59f7d180b8int,
        0x4491e989d4fe898d057c94d92f1d723329d17df3761415bfe277f0585f71b648int,
        0x40149cf4550272ae5ecd17b3a56991f460663dfbe7343be23f1077b760c6755int,
    );
    lemma_window(
        0x178da222690080cd7nat,
        12,
        13841287201,
        0x40149cf4550272ae5ecd17b3a56991f460663dfbe7343be23f1077b760c6755int,
        0xf9bd97089a26929fe79876caf189ed3389801b03a00607a8e17966a9aa7c08cint,
        0x70cf9e65371b435d11714c03e3fe92f69044052a333152fca66c2fcddbe5228fint,
        0x39f44b342faa0ea6f1062eafe57c83f7810a1116c8f87ba7e38c5a0a814dad63int,
        0x474a1e81a1438f23b1054c7e4c2b54fd6987a98804890aa8f986b99d7a9876int,
    );
    lemma_window(
        0x178da222690080cd7cnat,
        10,
        282475249,
        0x474a1e81a1438f23b1054c7e4c2b54fd6987a98804890aa8f986b99d7a9876int,
        0xf13bf54920ed18adf27241af6ef276042f9d581135bb1059f05ad030287b330int,
        0x2b3046dc49e452642a9becef4d38bb65e8294d71377a0ab1a98013561f98c7bbint,
        0x37ab88655dc4279b0b543f977683bea9580d61b3b34a4ddfb28e3cf05daf9f87int,
        0x51363e4424e941d7dd7dc0266e3fc93dd02fd1e0c50eeeba05a1461e22dd1d9aint,
    );
    lemma_window(
        0x178da222690080cd7canat,
        11,
        1977326743,
        0x51363e4424e941d7dd7dc0266e3fc93dd02fd1e0c50eeeba05a1461e22dd1d9aint,
        0x2d1528096d2fa9a182664186662db32620a189d731815065e69b5f52272507f3int,
        0x467130d890e87dcafbc1be8f3772d2c538e2bac7562eea158e665b0d89f6dac4int,
        0x376763346abee94bc0dd4665bb63b138b19edae5e18a4977a164c702521858b3int,
        0x98ecb962c2556878d4dbf70fe8b05154ac4a859b0d4df0c3d518016786499e4int,
    );
    lemma_window(
        0x178da222690080cd7cabnat,
        2,
        49,
        0x98ecb962c2556878d4dbf70fe8b05154ac4a859b0d4df0c3d518016786499e4int,
        0x4438321c35de439047e09e0f95e01fccf4dea8fac285d93bd92e34395a901205int,
        0x34e9401c092b1a88e623bfb15535df181c42badbe7335304ba76b8767063dbafint,
        0x2c1e69a9aa60f501058194af925f1482c9475c0f3ce2c37d9b3942ab15fe1558int,
        0x113b88a43477eca83ef022210e8093ae11ab1309661b5dc26b8cf8a9d2875e38int,
    );
    lemma_window(
        0x178da222690080cd7cab2nat,
        10,
        282475249,
        0x113b88a43477eca83ef022210e8093ae11ab1309661b5dc26b8cf8a9d2875e38int,
        0x511e689e7bca4780441e84af8fc1ccd0eaa10be5cb164136bdb14ff6d079d81fint,
        0x17e7889135bd06c592db22975ffafd3ce8385398a1e130abe078a19d97f84f85int,
        0x4452de839de9a590d81c525153fb16abea9f9b3140e4b3526d89f6ae58e8225eint,
        0x3b462dad9b600e8f25c951849139509af106e3b676962ab4a6f98f3e830c2de9int,
    );
    lemma_window(
        0x178da222690080cd7cab2anat,
        10,
        282475249,
        0x3b462dad9b600e8f25c951849139509af106e3b676962ab4a6f98f3e830c2de9int,
        0xde7a6b555c9a6e892dc98ddc1c6c3ec1facaace5c98c0937a3493d065e28f88int,
        0x3b6ac0b6adb78e5276b93be790698e90d2887a0d4bcc2788f942b2c2831fa7e4int,
        0x726615147f19383aa872b81e49d7e72f8261b295b290f959ae97c31d2a3c7da2int,
        0x709f2cc3c9851b99eac2b1ec5f0057461b7b3346ff1856533a97338429b78e04int,
    );
    lemma_window(
        0x178da222690080cd7cab2aanat,
        11,
        1977326743,
        0x709f2cc3c9851b99eac2b1ec5f0057461b7b3346ff1856533a97338429b78e04int,
        0x50ae2c50689b9dd98ae9ef2b9e3740633e1df6f672bdc00031e65a52af0b4e2dint,
        0x41b6f4ed32a07699f2429ca3b9dfcec696b8fe52fc0d4384997c3605cb449c82int,
        0x10c9215e06c28146d91a2182076be05a05f8d0dd209bb8356328b411cbac44cint,
        0x5c25ca0d297e143e3b08783dacef049a29311f7d10519564ba1198e5bc1b98f9int,
    );
    lemma_window(
        0x178da222690080cd7cab2aabnat,
        1,
        7,
        0x5c25ca0d297e143e3b08783dacef049a29311f7d10519564ba1198e5bc1b98f9int,
        0x5afd6779e92277788d605b660a786cfc3e7aba9e9e8533e24076290355fd5576int,
        0x24e29814e85f9ff8e80df3263d43e5e09874806426bb929b8f4b9d2f35ac4832int,
        0x499e17c9f69c76487f5d7b29e661b95a556149394a9c328373782697ebebe685int,
        0x24d51e046a5646410f3562fbfb3477d9b70a2b3084c61eae402691e3b8c901ddint,
    );
    lemma_window(
        0x178da222690080cd7cab2aab1nat,
        3,
        343,
        0x24d51e046a5646410f3562fbfb3477d9b70a2b3084c61eae402691e3b8c901ddint,
        0x258ca7c69a37ffd0e1da95f65b8569859bd12dbed6ab37386e1d18182f22fa2int,
        0x36ced7a50b272a65b804ad3e4075cdaa182815d39bd0f114925fc65dc5c0f154int,
        0x328f5ca5107b9b9c6217fdd9a5559d6baa1b3d322a115006927c3848efb8297int,
        0x3982c126c29c8bdab63befe9a97a8b4694f304297f4fabdd2f08d84ddda70cc4int,
    );
    lemma_window(
        0x178da222690080cd7cab2aab13nat,
        10,
        282475249,
        0x3982c126c29c8bdab63befe9a97a8b4694f304297f4fabdd2f08d84ddda70cc4int,
        0x2722deec2e927c568f821c3bb60f3ecbeef9e47c0684f1182bab8c4fb8524839int,
        0x5467b303a860c81dd661968854a27f2e12b90f9a6adc60cf04426809859e8dd3int,
        0x6efd5573405cd6ce5677b1a4d44910e1dfde36ebd989243564f82ab7cd7d5dbfint,
        0x23db331906fb00b0fb0601aec766362c992c2fdc1f8fadc1ad5cfff8b48179ebint,
    );
}

proof fn lemma_power_40_digits()
    ensures
        pow(7, 0x178da222690080cd7cab2aab13ab2aaa87aaaaaanat) % order() == 0x60ed1c746c2473d00a951786b7168faa8fcaaa376e9bda12dab426868c70400dint,
{
    lemma_powers_of_7();
    lemma_power_27_digits();
    lemma_window(
        0x178da222690080cd7cab2aab13anat,
        11,
        1977326743,
        0x23db331906fb00b0fb0601aec766362c992c2fdc1f8fadc1ad5cfff8b48179ebint,
        0x70274ebbd1fe5bffa28a024c482f8f160f98078388b5d89ef2f1c34bb8986f36int,
        0x5940c3e560e4807e3f6488f317f66f3388c1c43a49aa8fbfc18dea8996900615int,
        0x3f93b062c5fc8252d5eb0c030e2a35d7212b71c2e8671c7c23a394987ac2b897int,
        0x3ae683e5d28ebc0b93993360f4fa15102b120973550514451a18c518af6f6e8dint,
    );
    lemma_window(
        0x178da222690080cd7cab2aab13abnat,
        2,
        49,
        0x3ae683e5d28ebc0b93993360f4fa15102b120973550514451a18c518af6f6e8dint,
        0x47bbe564d1b522ce8b13f7ac46f1e211a90525e8152fb5db0052588f4839f79cint,
        0x2ddbfd52c699142e65f401287699b1ca281dfc61b47cb2b0c612cc6d3eb90a93int,
        0xd6ce6f1fdd50e2b0e6b9ddf501cac470d0391a8bb7130f239964d78ad57b290int,
        0x5fe40068dd9db66a9ae8791433776792e9d0952b7dd439dc00c01e08fcfe4a30int,
    );
    lemma_window(
        0x178da222690080cd7cab2aab13ab2nat,
        10,
        282475249,
        0x5fe40068dd9db66a9ae8791433776792e9d0952b7dd439dc00c01e08fcfe4a30int,
        0x4ee4e6fc523fe4be0b914854d04f410f504aad7d25ef4b6383c95ee92b9126a5int,
        0x59cecf62145c8b59970096d60b2cf68ce1240f245795a62b6cd5867eb6d182e9int,
        0x35987314ba59311770bb3b0cb294c7d7f51c4d85407aa43a82f750930386b832int,
        0x12b641e9b53487461014608c8034fd8a23eceb3f2fc68d45ad86fa9e6a41768dint,
    );
    lemma_window(
        0x178da222690080cd7cab2aab13ab2anat,
        10,
        282475249,
        0x12b641e9b53487461014608c8034fd8a23eceb3f2fc68d45ad86fa9e6a41768dint,
        0x5a858841d1a592ea7e88638603d9dae9dbd46054394f9351f34605666e0743d8int,
        0x608800bcb2df8b7649f6e138dc0f3f155e267040689aa52dff54aa14037b4901int,
        0x21fdeba69c39d65c305ddf01c5812482d97ee9cee8b8ee21c1745ba6bf6aff3eint,
        0x4df83376c4345656e8353f41f7f1d44072b5b0d4cb8cf9d78bc1d040416a3fceint,
    );
    lemma_window(
        0x178da222690080cd7cab2aab13ab2aanat,
        10,
        282475249,
        0x4df83376c4345656e8353f41f7f1d44072b5b0d4cb8cf9d78bc1d040416a3fceint,
        0x58b998d8e76f4ea5406ca1a31f66e09c8786a63f0eafcf444d656fd48242cd39int,
        0x30e181d6793d0cbb8d5ef13e820da6909b97b813dea1600a9b0819dfba77356fint,
        0x2d204fc11608064622ec0958fb0a86020a45a0b515fe87f7dadeed5ffef1d2feint,
        0x41f6fe949c8cb445c7463e792216b539493baf0f8393e77d977f224a1f47c416int,
    );
    lemma_window(
        0x178da222690080cd7cab2aab13ab2aaanat,
        8,
        5764801,
        0x41f6fe949c8cb445c7463e792216b539493baf0f8393e77d977f224a1f47c416int,
        0x27aef65e7189a4dd0c000e5bff10592b85f98af899cce01abc0ce0af5eef359eint,
        0xe54bfe6504f630fa636f06f3c634ba23ea9d6122ed24699e22107709c1d8877int,
        0x1a82b41c5651120c077ec80e717d174eb2b9a0ea1c316796997ab8cf66c9a0d8int,
        0x485eb591b603ceac2caa865e45a4aa26eb8872ab406877fd8897225bd67afcbdint,
    );
    lemma_window(
        0x178da222690080cd7cab2aab13ab2aaa8nat,
        7,
        823543,
        0x485eb591b603ceac2caa865e45a4aa26eb8872ab406877fd8897225bd67afcbdint,
        0x547790666accedb35e0aabca3923166578ad8e3a21803f363a0fa5b9423f226cint,
        0x61fef39844694443b35977b956c20f5e3f8ec1a629531ce613db8e58c12207b3int,
        0x5c073909e819df30371e126a40619649d173f06cfec973f7cc0bde123227c8bbint,
        0x50168aaba912a7d8c652c3fdd621e8a6edc24dabb4010439ea1f7f8051136f77int,
    );
    lemma_window(
        0x178da222690080cd7cab2aab13ab2aaa87nat,
        10,
        282475249,
        0x50168aaba912a7d8c652c3fdd621e8a6edc24dabb4010439ea1f7f8051136f77int,
        0x5827ff11d22f771763aacf33d3ce6cba3e1af2dba1487c369c665b29e7d7f250int,
        0x6f34f55448ce8045bf0b7645d592123a136481a9f219e7152ddc18cae102a048int,
        0x31a36d74d7f2dfa4f0929ec108eeaaa24ab3a99cbb448e90369da7f9a4de65f6int,
        0x68e35528410a64783881b6c8c296510183837aea0ccab5f2b4e044f64a287470int,
    );
    lemma_window(
        0x178da222690080cd7cab2aab13ab2aaa87anat,
        10,
        282475249,
        0x68e35528410a64783881b6c8c296510183837aea0ccab5f2b4e044f64a287470int,
        0x526b10ed2fb4ba4a0542b316b6e4aa6943551b2f7ff93966217a4fd985fb302fint,
        0x251f52dc2e659b44a1b5d298a258bfa7afddb1d92ddb27cfe170dbf70c23e173int,
        0x66826b90df7ed6d0a6d6601ce49fa37db5ef2439b8468bb28128c1ae39925febint,
        0x72bcb0580522fe1913b0759becc99d3569286206dcae8ee4840756818b70d803int,
    );
    lemma_window(
        0x178da222690080cd7cab2aab13ab2aaa87aanat,
        10,
        282475249,
        0x72bcb0580522fe1913b0759becc99d3569286206dcae8ee4840756818b70d803int,
        0x429c3fd00c9e3f8e48e419899a2ab9a7313b1de09a19fdde2ce0ca3b4f1c7930int,
        0x6db05c3dab679252889adce861d4ce919554b60f71af023a158cdffc1d04d1d0int,
        0x6b2669e0ad409891b136ef4eede9739b4932dce5e391d5f0f6256c760f59cd4fint,
        0x3105bd3a81d366d7791e083c37e85786e79a23e1b89bad304f23640259c8d41eint,
    );
    lemma_window(
        0x178da222690080cd7cab2aab13ab2aaa87aaanat,
        10,
        282475249,
        0x3105bd3a81d366d7791e083c37e85786e79a23e1b89bad304f23640259c8d41eint,
        0xaa6cff0125ca94eeefe56868f68b9837ba640e629c58262468de173852f3362int,
        0x70a8d071e6856858c26cbae4fdeae7d069685071866bcde27c3e20d0333e0840int,
        0x4342b6e2c4bb22f5e8c6f31d7621bbb5b170b00b341ab5cb9e91c7dbdc55817eint,
        0x62db148ef3041fd820a16bb901cd6c912bf44b8ebcc558025f1ec4f962269731int,
    );
    lemma_window(
        0x178da222690080cd7cab2aab13ab2aaa87aaaanat,
        10,
        282475249,
        0x62db148ef3041fd820a16bb901cd6c912bf44b8ebcc558025f1ec4f962269731int,
        0x293376957a005f59118554b4c846e279288955402ca588c6666d43d427c364f4int,
        0x3da2e99c567b9c0bd16a7cfb9d2c7883b80a106bc87bc9dfc3d968472e66499dint,
        0x287615498ec61fda5395ce5402225ccd9f7ceccc2d27d7cd5bed5f2e40680fa0int,
        0x26a7c7062709f9e81c6a6fbd2b5bfd98b52a36abef5ecbc4304942e141d4c4abint,
    );
    lemma_window(
        0x178da222690080cd7cab2aab13ab2aaa87aaaaanat,
        10,
        282475249,
        0x26a7c7062709f9e81c6a6fbd2b5bfd98b52a36abef5ecbc4304942e141d4c4abint,
        0x332e22d2f591634ee93a4ca34a6af2dcd47ad668fc1c3d9f6b48f0e2846c9efaint,
        0x1d2f8aade4c1525a7e19d3f0a525a12777ad810a5d0715545a14f36c2a28fafdint,
        0x6ff221c18a6d9d7a5f51b6bd757bb539113b52df823dea89360f18d637710bfint,
        0x60ed1c746c2473d00a951786b7168faa8fcaaa376e9bda12dab426868c70400dint,
    );
}

proof fn lemma_power_52_digits()
    ensures
        pow(7, 0x178da222690080cd7cab2aab13ab2aaa87aaaaaaaaaa80000000nat) % order() == 0x6d2f48fd1061ea4ec75e4570c500b30f8f8de654742901777eddf15c268a6977int,
{
    lemma_powers_of_7();
    lemma_power_40_digits();
    lemma_window(
        0x178da222690080cd7cab2aab13ab2aaa87aaaaaanat,
        10,
        282475249,
        0x60ed1c746c2473d00a951786b7168faa8fcaaa376e9bda12dab426868c70400dint,
        0x13b18875447fe7a94cbbf898d8cbdc95690e5b2084ff05d54a6b42b149e6dc44int,
        0x1800c130db38f0b51c6ddc7b7fb94337ce648db4e64e5fc8ec8548d306e1d873int,
        0x6a9a291707ae167f84dc95a5ff026928d6e7b846d1fc4acb16ecb7327673f20eint,
        0x7351d90d9a8b8d21044dc413e6444b49f6f610e869c25786ce4f72a45a328693int,
    );
    lemma_window(
        0x178da222690080cd7cab2aab13ab2aaa87aaaaaaanat,
        10,
        282475249,
        0x7351d90d9a8b8d21044dc413e6444b49f6f610e869c25786ce4f72a45a328693int,
        0x423fbb138b0b35d1de66fe5b122e89b5e821a2a4d3eb8130ccb9bf742db8f3eeint,
        0x5b1b8822f102668665622c31eb9641c7088e8b9fb065879263afbe15e53bfb0fint,
        0x4fe74b5277cc48a33436c875edf9cb128b7928cdf99974738981f07cee5ea7b1int,
        0x2d5810f3ace4fffa8519660cda103cc1f1925daed81ce0a365c32b83dc8dedadint,
    );
    lemma_window(
        0x178da222690080cd7cab2aab13ab2aaa87aaaaaaaanat,
        10,
        282475249,
        0x2d5810f3ace4fffa8519660cda103cc1f1925daed81ce0a365c32b83dc8dedadint,
        0x42b5dd6347c43c0991279f9631b5cc16e84fb17aee9f0adbaabe1290ca8d42e2int,
        0x38bdd41ec400a906c6329a6bd135acf65c731ff7d23840aedd1380e2321bdb54int,
        0x5e917f3ecbdc6a94b08f93210e12a0e2faf9dbfe4b05ba3a69a4349ee8e4d279int,
        0xc82f37231554b89acc4ebf9f8a4af990102c2ff88abf3bba48e3b3d2fc88550int,
    );
    lemma_window(
        0x178da222690080cd7cab2aab13ab2aaa87aaaaaaaaanat,
        10,
        282475249,
        0xc82f37231554b89acc4ebf9f8a4af990102c2ff88abf3bba48e3b3d2fc88550int,
        0x261fdcf27688def62dab1567dcda36b8a29fe1f5e507671de984b37dda2bf724int,
        0x1075efa563e0b40dd799e72589429e9ed7d1473b49c8bfd94a73e8394296dc1eint,
        0x60b1c27927378583d25f9f8435ad7226b617eea6826b131ade94ede6a42d871int,
        0x4de65edb5f8e6615a44000e1e12ceea8ffc285fa7faf39d99d40bc873d84dfc1int,
    );
    lemma_window(
        0x178da222690080cd7cab2aab13ab2aaa87aaaaaaaaaanat,
        8,
        5764801,
        0x4de65edb5f8e6615a44000e1e12ceea8ffc285fa7faf39d99d40bc873d84dfc1int,
        0x3f8ee6966a8e5107f639241cca6b3757c4e975222ead058183ee25a5fc93c44bint,
        0x6ec7e3a54ae54eca3681420418f0f9ea34f1053a6b643ba04a8e71036ff1d8b2int,
        0x240967fff749014cf351f3cc6cb6ff41e45ec51ab9760a3e2ac00a66fa6b0078int,
        0x5341f9da41fcead7292a5e1a286a2b7a172cd4a671b9259a17a001c015f975d1int,
    );
    lemma_window(
        0x178da222690080cd7cab2aab13ab2aaa87aaaaaaaaaa8nat,
        0,
        1,
        0x5341f9da41fcead7292a5e1a286a2b7a172cd4a671b9259a17a001c015f975d1int,
        0x3af58252de1b8c9cb7d6e5614efca4cdc4c70e0fd7adc272b1c61696feddee00int,
        0x3125d2b2776c9cbc3ffe5a098de0d9a3586a88cfb86b93424b32a804e90a84a7int,
        0x85cec7e7a8b61eecce162139c4fb7c51454b79b4949017c46b784ae3913c6b2int,
        0x25a5ccccf931aebfc0d48dfd8b0eaac44c536da72e339021506436a68408d466int,
    );
    lemma_window(
        0x178da222690080cd7cab2aab13ab2aaa87aaaaaaaaaa80nat,
        0,
        1,
        0x25a5ccccf931aebfc0d48dfd8b0eaac44c536da72e339021506436a68408d466int,
        0x55cd84e5641713a73bf93fac849fcf541c5ab705e5a1370068aaee076632be99int,
        0xeb0591e019dea6e96671c08024d41a2dd27bd8f2feb6a991fc9e722ee338d86int,
        0x2a543f155ff7ce8d96325318b4edd7ce8a87474f050c85a88985e1453d0e0285int,
        0x3f46a433a5e99133c71137af1fc44fa6771e5da7b8c5e68f72abdc2cde16b066int,
    );
    lemma_window(
        0x178da222690080cd7cab2aab13ab2aaa87aaaaaaaaaa800nat,
        0,
        1,
        0x3f46a433a5e99133c71137af1fc44fa6771e5da7b8c5e68f72abdc2cde16b066int,
        0x2506465620b1e622dd8ed00b150e511a3fe0aae131ef5d643714d4a2a5eb4947int,
        0x46efc41fb4b90430a877683b8ee70f9f006034d1abef0d8f702ea46dd3ca93afint,
        0x58513dbbc5f47dffa631870fd5fa3717ea33572866f9d2c295f081b0b84649d0int,
        0x2f809029d04b69ea11779f4b9e19dd4f5011071cae4cc544d0aeeca34617eed3int,
    );
    lemma_window(
        0x178da222690080cd7cab2aab13ab2aaa87aaaaaaaaaa8000nat,
        0,
        1,
        0x2f809029d04b69ea11779f4b9e19dd4f5011071cae4cc544d0aeeca34617eed3int,
        0x5d92c4e2d0ab5e532018cb7337d6e17c437b8afbe802ec07ad1aa1ae195eead4int,
        0x4673d3368af525b2dfd4272142921ef06bc7248c4ce60a5814ffcb79bc216e03int,
        0x1616bee035d27cad838850f8b323611d00af5a14b1a8156b358102743ef2133fint,
        0x2562043074aa45fe7dbd1d4815b0eb3af43fc2908e7482a6cf164a9cb1a9f64dint,
    );
    lemma_window(
        0x178da222690080cd7cab2aab13ab2aaa87aaaaaaaaaa80000nat,
        0,
        1,
        0x2562043074aa45fe7dbd1d4815b0eb3af43fc2908e7482a6cf164a9cb1a9f64dint,
        0x2f1d5f111f38eb568e4b3ba6632616d196ec8e47cdbdc246d9807cd38542b4b2int,
        0x163686bc1d7d945c3ed1aa6dc0e45af1a7b2724b2ad34a541ba1b918533ffbbcint,
        0x3584a6466c688c8631533327066471b350b4b6e6e2a0a8ed6863047b1fda888aint,
        0x2e6927aae9c453eb3372f054be76b008c9a7fa6768792b779a3a598f244e24a5int,
    );
    lemma_window(
        0x178da222690080cd7cab2aab13ab2aaa87aaaaaaaaaa800000nat,
        0,
        1,
        0x2e6927aae9c453eb3372f054be76b008c9a7fa6768792b779a3a598f244e24a5int,
        0x4dfe9b93f116784cf79819df40e8952b3760072a8ab574841f10335186895189int,
        0x5d797f144c142ccaa1e43959ae381c0320a6aeb3cc6d999d26d364583a9f018dint,
        0x4c54b3a9630ebb8e503d463a3f4cfd9c276164b53040807052431727cdd66240int,
        0x2308d2fdd296f2488a9d57d6654efc62c61890accb0f32bba8c5f1b9aa7b7ac9int,
    );
    lemma_window(
        0x178da222690080cd7cab2aab13ab2aaa87aaaaaaaaaa8000000nat,
        0,
        1,
        0x2308d2fdd296f2488a9d57d6654efc62c61890accb0f32bba8c5f1b9aa7b7ac9int,
        0x5aaf84d83ed811bd3f136c7871ca5a000507a8ac767ebeb39d707f51bcbbc39bint,
        0x6f26db0c421ca710e60dca122f177b264ffcb6a96d081f83b877f4736c966c83int,
        0x4f1d04921b610b64b63d115cbcec1fa1e21cc8309252cc1e1dd45f6c31848132int,
        0x6d2f48fd1061ea4ec75e4570c500b30f8f8de654742901777eddf15c268a6977int,
    );
}

/// The power 906349 of an integer that is congruent to 7 to the power of `root_exponent()`.
proof fn lemma_power_906349_of_root(a: int)
    requires
        a % order() == 0x6d2f48fd1061ea4ec75e4570c500b30f8f8de654742901777eddf15c268a6977int,
    ensures
        pow(a, 906349) % order() == 0x41c8d53178c3349198dfe0f1f78d1fbb913638bf41f8ee79a4c8368b0c0e9d0fint,
{
    lemma_pow1(a);
    lemma_bit(
        a,
        0x6d2f48fd1061ea4ec75e4570c500b30f8f8de654742901777eddf15c268a6977int,
        1,
        1,
        0x6d2f48fd1061ea4ec75e4570c500b30f8f8de654742901777eddf15c268a6977int,
        0x5408b980649808cd37c2e17f1db833c9214e1bb03b6f6227991621e3561c6d96int,
    );
    lemma_bit(
        a,
        0x6d2f48fd1061ea4ec75e4570c500b30f8f8de654742901777eddf15c268a6977int,
        3,
        0,
        0x5408b980649808cd37c2e17f1db833c9214e1bb03b6f6227991621e3561c6d96int,
        0x2e6de94c1a3572cd5b8a113cc0698a3d2bfc3995eed21c00cb5c8df5e00afb4aint,
    );
    lemma_bit(
        a,
        0x6d2f48fd1061ea4ec75e4570c500b30f8f8de654742901777eddf15c268a6977int,
        6,
        1,
        0x2e6de94c1a3572cd5b8a113cc0698a3d2bfc3995eed21c00cb5c8df5e00afb4aint,
        0x1fb4c262a51b627f08c72aaa62c2b80851885b1fc9bdb0fbe6845ba9fd6d510cint,
    );
    lemma_bit(
        a,
        0x6d2f48fd1061ea4ec75e4570c500b30f8f8de654742901777eddf15c268a6977int,
        13,
        1,
        0x1fb4c262a51b627f08c72aaa62c2b80851885b1fc9bdb0fbe6845ba9fd6d510cint,
        0x1ccce686e2f2262747c5b57bdc4a0f78b331ad7dc1f2e828f573164a3cdd00cbint,
    );
    lemma_bit(
        a,
        0x6d2f48fd1061ea4ec75e4570c500b30f8f8de654742901777eddf15c268a6977int,
        27,
        1,
        0x1ccce686e2f2262747c5b57bdc4a0f78b331ad7dc1f2e828f573164a3cdd00cbint,
        0x6e97709da3db6acc891b938f09e1d971936589d925da48cc9eb4cabb81dbfbbdint,
    );
    lemma_bit(
        a,
        0x6d2f48fd1061ea4ec75e4570c500b30f8f8de654742901777eddf15c268a6977int,
        55,
        0,
        0x6e97709da3db6acc891b938f09e1d971936589d925da48cc9eb4cabb81dbfbbdint,
        0x6082f9a6adc7e00b2df12e7ba493b77a9061072d652ce22c23c5bbe12015d053int,
    );
    lemma_bit(
        a,
        0x6d2f48fd1061ea4ec75e4570c500b30f8f8de654742901777eddf15c268a6977int,
        110,
        1,
        0x6082f9a6adc7e00b2df12e7ba493b77a9061072d652ce22c23c5bbe12015d053int,
        0x21643453c202fe9074c6a050568cfcbfd4e5df3e1cc64eaa64e0666876d7d718int,
    );
    lemma_bit(
        a,
        0x6d2f48fd1061ea4ec75e4570c500b30f8f8de654742901777eddf15c268a6977int,
        221,
        0,
        0x21643453c202fe9074c6a050568cfcbfd4e5df3e1cc64eaa64e0666876d7d718int,
        0x6c5e27de6450f96398ddb6d179a8232ed77199af6d80b55fadb39f52402eb34int,
    );
    lemma_bit(
        a,
        0x6d2f48fd1061ea4ec75e4570c500b30f8f8de654742901777eddf15c268a6977int,
        442,
        1,
        0x6c5e27de6450f96398ddb6d179a8232ed77199af6d80b55fadb39f52402eb34int,
        0x35f9d39fded61ffb91f21f31e771028d5063c490e30c11aba783551d512489b8int,
    );
    lemma_bit(
        a,
        0x6d2f48fd1061ea4ec75e4570c500b30f8f8de654742901777eddf15c268a6977int,
        885,
        0,
        0x35f9d39fded61ffb91f21f31e771028d5063c490e30c11aba783551d512489b8int,
        0x6a721aac39f8c404c3afdf69b961daa6dee4b48e1c64a14fb1c2d76f3a72afdfint,
    );
    lemma_bit(
        a,
        0x6d2f48fd1061ea4ec75e4570c500b30f8f8de654742901777eddf15c268a6977int,
        1770,
        0,
        0x6a721aac39f8c404c3afdf69b961daa6dee4b48e1c64a14fb1c2d76f3a72afdfint,
        0x4bc9915a60d0f308a6a2055b9b6081bb1a77a1f91dd40bf7d1c35c2c515df49fint,
    );
    lemma_bit(
        a,
        0x6d2f48fd1061ea4ec75e4570c500b30f8f8de654742901777eddf15c268a6977int,
        3540,
        0,
        0x4bc9915a60d0f308a6a2055b9b6081bb1a77a1f91dd40bf7d1c35c2c515df49fint,
        0x43ef365b88b45e9355c2706ba816f4bd3e1a3d34ea1f55b0466578a28233b14int,
    );
    lemma_bit(
        a,
        0x6d2f48fd1061ea4ec75e4570c500b30f8f8de654742901777eddf15c268a6977int,
        7080,
        1,
        0x43ef365b88b45e9355c2706ba816f4bd3e1a3d34ea1f55b0466578a28233b14int,
        0x6bc1a8f093d34635b4184c983224e4f841e71da3a9e1b9464323db2b60eff1efint,
    );
    lemma_bit(
        a,
        0x6d2f48fd1061ea4ec75e4570c500b30f8f8de654742901777eddf15c268a6977int,
        14161,
        1,
        0x6bc1a8f093d34635b4184c983224e4f841e71da3a9e1b9464323db2b60eff1efint,
        0x5d113ea630c373c0c79e1f20ee8b06631353ae8e80fa3f313ba910f20b8522b8int,
    );
    lemma_bit(
        a,
        0x6d2f48fd1061ea4ec75e4570c500b30f8f8de654742901777eddf15c268a6977int,
        28323,
        0,
        0x5d113ea630c373c0c79e1f20ee8b06631353ae8e80fa3f313ba910f20b8522b8int,
        0x6e1f4d615870105b769dbfe66f822648c6cfb77d4585ade6984bbc5274d6bfd5int,
    );
    lemma_bit(
        a,
        0x6d2f48fd1061ea4ec75e4570c500b30f8f8de654742901777eddf15c268a6977int,
        56646,
        1,
        0x6e1f4d615870105b769dbfe66f822648c6cfb77d4585ade6984bbc5274d6bfd5int,
        0x5a6163225c45d458c8c1d6aa73d122f72cd41baf23ae628383a797ebd4f66054int,
    );
    lemma_bit(
        a,
        0x6d2f48fd1061ea4ec75e4570c500b30f8f8de654742901777eddf15c268a6977int,
        113293,
        1,
        0x5a6163225c45d458c8c1d6aa73d122f72cd41baf23ae628383a797ebd4f66054int,
        0x62eb4b9acd20e51bd64e4fa07ec02ee93caef1f943b2a20b0a4acd169d4190bint,
    );
    lemma_bit(
        a,
        0x6d2f48fd1061ea4ec75e4570c500b30f8f8de654742901777eddf15c268a6977int,
        226587,
        0,
        0x62eb4b9acd20e51bd64e4fa07ec02ee93caef1f943b2a20b0a4acd169d4190bint,
        0x37c78d5fe07b2510017516600dfb40dec89bdce286126ad3afc15775b38f738dint,
    );
    lemma_bit(
        a,
        0x6d2f48fd1061ea4ec75e4570c500b30f8f8de654742901777eddf15c268a6977int,
        453174,
        1,
        0x37c78d5fe07b2510017516600dfb40dec89bdce286126ad3afc15775b38f738dint,
        0x41c8d53178c3349198dfe0f1f78d1fbb913638bf41f8ee79a4c8368b0c0e9d0fint,
    );
}

/// The power 254760293 of the same integer.
proof fn lemma_power_254760293_of_root(a: int)
    requires
        a % order() == 0x6d2f48fd1061ea4ec75e4570c500b30f8f8de654742901777eddf15c268a6977int,
    ensures
        pow(a, 254760293) % order() == 0x5eba67e242df3b21fe629993ce02567506b4acc3469205cc316b609b537405fint,
{
    lemma_pow1(a);
    lemma_bit(
        a,
        0x6d2f48fd1061ea4ec75e4570c500b30f8f8de654742901777eddf15c268a6977int,
        1,
        1,
        0x6d2f48fd1061ea4ec75e4570c500b30f8f8de654742901777eddf15c268a6977int,
        0x5408b980649808cd37c2e17f1db833c9214e1bb03b6f6227991621e3561c6d96int,
    );
    lemma_bit(
        a,
        0x6d2f48fd1061ea4ec75e4570c500b30f8f8de654742901777eddf15c268a6977int,
        3,
        1,
        0x5408b980649808cd37c2e17f1db833c9214e1bb03b6f6227991621e3561c6d96int,
        0x301426099d9f74030d4d1e4d60ad7bfc0450e50c395f4332dc502e8850d64b7eint,
    );
    lemma_bit(
        a,
        0x6d2f48fd1061ea4ec75e4570c500b30f8f8de654742901777eddf15c268a6977int,
        7,
        1,
        0x301426099d9f74030d4d1e4d60ad7bfc0450e50c395f4332dc502e8850d64b7eint,
        0x2aa7371cd4151ad5cc66f0c0b55b247b86f410c4f4facca316154a84f8f67837int,
    );
    lemma_bit(
        a,
        0x6d2f48fd1061ea4ec75e4570c500b30f8f8de654742901777eddf15c268a6977int,
        15,
        0,
        0x2aa7371cd4151ad5cc66f0c0b55b247b86f410c4f4facca316154a84f8f67837int,
        0x4a45932d54c3e61ff712fd770236a9ee6dd03b8f0da6515d91f10740b1beb280int,
    );
    lemma_bit(
        a,
        0x6d2f48fd1061ea4ec75e4570c500b30f8f8de654742901777eddf15c268a6977int,
        30,
        0,
        0x4a45932d54c3e61ff712fd770236a9ee6dd03b8f0da6515d91f10740b1beb280int,
        0x689307bf1df0080781292ddac9ecc3c70298161cd5eb4876a489e459e12df4d8int,
    );
    lemma_bit(
        a,
        0x6d2f48fd1061ea4ec75e4570c500b30f8f8de654742901777eddf15c268a6977int,
        60,
        1,
        0x689307bf1df0080781292ddac9ecc3c70298161cd5eb4876a489e459e12df4d8int,
        0xb12943b332fca42302baf43fc122fc987ef6b1a0457087b7b2f711a63c64650int,
    );
    lemma_bit(
        a,
        0x6d2f48fd1061ea4ec75e4570c500b30f8f8de654742901777eddf15c268a6977int,
        121,
        0,
        0xb12943b332fca42302baf43fc122fc987ef6b1a0457087b7b2f711a63c64650int,
        0x29d1726a5447602c240de6efe4d73c5d10b78a3159e9a8d3cb1032b559bdef65int,
    );
    lemma_bit(
        a,
        0x6d2f48fd1061ea4ec75e4570c500b30f8f8de654742901777eddf15c268a6977int,
        242,
        1,
        0x29d1726a5447602c240de6efe4d73c5d10b78a3159e9a8d3cb1032b559bdef65int,
        0x159d27ef934e1bbf8e6c9c7fa697bb888da96c5efd212d70997fec72add18f0int,
    );
    lemma_bit(
        a,
        0x6d2f48fd1061ea4ec75e4570c500b30f8f8de654742901777eddf15c268a6977int,
        485,
        1,
        0x159d27ef934e1bbf8e6c9c7fa697bb888da96c5efd212d70997fec72add18f0int,
        0xeebf543ad9a5d621219b68005a5c77062f481c4c9d8b8d756832e2c6117793bint,
    );
    lemma_bit(
        a,
        0x6d2f48fd1061ea4ec75e4570c500b30f8f8de654742901777eddf15c268a6977int,
        971,
        1,
        0xeebf543ad9a5d621219b68005a5c77062f481c4c9d8b8d756832e2c6117793bint,
        0x48797e937e52ebe6c251a08f0d9f842bd6b30283c31dff696f12246a491f5185int,
    );
    lemma_bit(
        a,
        0x6d2f48fd1061ea4ec75e4570c500b30f8f8de654742901777eddf15c268a6977int,
        1943,
        1,
        0x48797e937e52ebe6c251a08f0d9f842bd6b30283c31dff696f12246a491f5185int,
        0x26bbf67de0c0897298ed071069fe8a4643c88ebdea6b0703ee12875f5dcab0caint,
    );
    lemma_bit(
        a,
        0x6d2f48fd1061ea4ec75e4570c500b30f8f8de654742901777eddf15c268a6977int,
        3887,
        0,
        0x26bbf67de0c0897298ed071069fe8a4643c88ebdea6b0703ee12875f5dcab0caint,
        0x3caf3e94b522b87e819d325e6fb07e29b7bcc3495fa2f0543d33544eeb90735fint,
    );
    lemma_bit(
        a,
        0x6d2f48fd1061ea4ec75e4570c500b30f8f8de654742901777eddf15c268a6977int,
        7774,
        1,
        0x3caf3e94b522b87e819d325e6fb07e29b7bcc3495fa2f0543d33544eeb90735fint,
        0x36c266e8f33a06385545b0456395cd3a67a77602f0682090d58eb24d07343074int,
    );
    lemma_bit(
        a,
        0x6d2f48fd1061ea4ec75e4570c500b30f8f8de654742901777eddf15c268a6977int,
        15549,
        0,
        0x36c266e8f33a06385545b0456395cd3a67a77602f0682090d58eb24d07343074int,
        0x3102e858233a8158e399d72f45040d19abc2168e979dda423f1cf0d34da55863int,
    );
    lemma_bit(
        a,
        0x6d2f48fd1061ea4ec75e4570c500b30f8f8de654742901777eddf15c268a6977int,
        31098,
        1,
        0x3102e858233a8158e399d72f45040d19abc2168e979dda423f1cf0d34da55863int,
        0x16a7d481febf8600777611728fab39a3f72bb944d07d3d5dccd87a73b69b5bd5int,
    );
    lemma_bit(
        a,
        0x6d2f48fd1061ea4ec75e4570c500b30f8f8de654742901777eddf15c268a6977int,
        62197,
        0,
        0x16a7d481febf8600777611728fab39a3f72bb944d07d3d5dccd87a73b69b5bd5int,
        0x236e15115bccb0af487f3d4dab31565ca267a8dd1cf9288449e1d542e97b7564int,
    );
    lemma_bit(
        a,
        0x6d2f48fd1061ea4ec75e4570c500b30f8f8de654742901777eddf15c268a6977int,
        124394,
        1,
        0x236e15115bccb0af487f3d4dab31565ca267a8dd1cf9288449e1d542e97b7564int,
        0x487be5d8325f6ac1e457be66d312accdf644a99ddf76c805321c7d908b0537c4int,
    );
    lemma_bit(
        a,
        0x6d2f48fd1061ea4ec75e4570c500b30f8f8de654742901777eddf15c268a6977int,
        248789,
        0,
        0x487be5d8325f6ac1e457be66d312accdf644a99ddf76c805321c7d908b0537c4int,
        0x4492a30b9e5209a1ebe979da5843ed6e7b96d7e5f6b8e008f57fbbfd253f0fbfint,
    );
    lemma_bit(
        a,
        0x6d2f48fd1061ea4ec75e4570c500b30f8f8de654742901777eddf15c268a6977int,
        497578,
        1,
        0x4492a30b9e5209a1ebe979da5843ed6e7b96d7e5f6b8e008f57fbbfd253f0fbfint,
        0x55fb8664fa72f1b944164b00ed2a076f4e3064f2c46ed6bef269ed19e96a85f9int,
    );
    lemma_bit(
        a,
        0x6d2f48fd1061ea4ec75e4570c500b30f8f8de654742901777eddf15c268a6977int,
        995157,
        0,
        0x55fb8664fa72f1b944164b00ed2a076f4e3064f2c46ed6bef269ed19e96a85f9int,
        0x2beb341b9eaf704c10ab8d2576d463ee01361aa2f469bfe745482108f7fca17cint,
    );
    lemma_bit(
        a,
        0x6d2f48fd1061ea4ec75e4570c500b30f8f8de654742901777eddf15c268a6977int,
        1990314,
        1,
        0x2beb341b9eaf704c10ab8d2576d463ee01361aa2f469bfe745482108f7fca17cint,
        0x55dca289eb6413fdea96e32a438e0e3086d11b1b95e8fb2b04bcb625bcd89fc8int,
    );
    lemma_bit(
        a,
        0x6d2f48fd1061ea4ec75e4570c500b30f8f8de654742901777eddf15c268a6977int,
        3980629,
        1,
        0x55dca289eb6413fdea96e32a438e0e3086d11b1b95e8fb2b04bcb625bcd89fc8int,
        0x6efedcd769456e5e170ffe6cb8e91de921063f5c993ace547e8eb522626bfb36int,
    );
    lemma_bit(
        a,
        0x6d2f48fd1061ea4ec75e4570c500b30f8f8de654742901777eddf15c268a6977int,
        7961259,
        0,
        0x6efedcd769456e5e170ffe6cb8e91de921063f5c993ace547e8eb522626bfb36int,
        0x6715b0517a77b2a1883e4bd93cfafd02c486fa1d2f8f94732a55f3e6487913acint,
    );
    lemma_bit(
        a,
        0x6d2f48fd1061ea4ec75e4570c500b30f8f8de654742901777eddf15c268a6977int,
        15922518,
        0,
        0x6715b0517a77b2a1883e4bd93cfafd02c486fa1d2f8f94732a55f3e6487913acint,
        0xe592d95ee2d74be6b07d7475b8309474a70b96eacac415d482a53b6df843f71int,
    );
    lemma_bit(
        a,
        0x6d2f48fd1061ea4ec75e4570c500b30f8f8de654742901777eddf15c268a6977int,
        31845036,
        1,
        0xe592d95ee2d74be6b07d7475b8309474a70b96eacac415d482a53b6df843f71int,
        0x4f7e329911cff307f87e717154259dc325a428bba42faaeea9516dbe03aa2e7aint,
    );
    lemma_bit(
        a,
        0x6d2f48fd1061ea4ec75e4570c500b30f8f8de654742901777eddf15c268a6977int,
        63690073,
        0,
        0x4f7e329911cff307f87e717154259dc325a428bba42faaeea9516dbe03aa2e7aint,
        0x634f165447f31be8a3a7961b8933019b120b657e21660f597074e68d129e0c46int,
    );
    lemma_bit(
        a,
        0x6d2f48fd1061ea4ec75e4570c500b30f8f8de654742901777eddf15c268a6977int,
        127380146,
        1,
        0x634f165447f31be8a3a7961b8933019b120b657e21660f597074e68d129e0c46int,
        0x5eba67e242df3b21fe629993ce02567506b4acc3469205cc316b609b537405fint,
    );
}

/// The power 254760293 of an integer that is congruent to that power 906349.
proof fn lemma_power_254760293_of_power(a: int)
    requires
        a % order() == 0x41c8d53178c3349198dfe0f1f78d1fbb913638bf41f8ee79a4c8368b0c0e9d0fint,
    ensures
        pow(a, 254760293) % order() == 0xac45a4010001a4020000000100000000int,
{
    lemma_pow1(a);
    lemma_bit(
        a,
        0x41c8d53178c3349198dfe0f1f78d1fbb913638bf41f8ee79a4c8368b0c0e9d0fint,
        1,
        1,
        0x41c8d53178c3349198dfe0f1f78d1fbb913638bf41f8ee79a4c8368b0c0e9d0fint,
        0x528429a99038cdf678c3785e999cdd9dcd0f0135907f3896fd8b3c36e93f6caint,
    );
    lemma_bit(
        a,
        0x41c8d53178c3349198dfe0f1f78d1fbb913638bf41f8ee79a4c8368b0c0e9d0fint,
        3,
        1,
        0x528429a99038cdf678c3785e999cdd9dcd0f0135907f3896fd8b3c36e93f6caint,
        0x5640e6c7a09e2b6ecbb944f8dbdc4039a346f4d03c268c98abc39c5b75964fbint,
    );
    lemma_bit(
        a,
        0x41c8d53178c3349198dfe0f1f78d1fbb913638bf41f8ee79a4c8368b0c0e9d0fint,
        7,
        1,
        0x5640e6c7a09e2b6ecbb944f8dbdc4039a346f4d03c268c98abc39c5b75964fbint,
        0x607d683f65ea0710fccf8aebb16f278b13259749bd539916302cb5c90462e31bint,
    );
    lemma_bit(
        a,
        0x41c8d53178c3349198dfe0f1f78d1fbb913638bf41f8ee79a4c8368b0c0e9d0fint,
        15,
        0,
        0x607d683f65ea0710fccf8aebb16f278b13259749bd539916302cb5c90462e31bint,
        0x289072c8c89e8fb70e66651011612ba8d90c65fa75a7c1c717811a07cd060f32int,
    );
    lemma_bit(
        a,
        0x41c8d53178c3349198dfe0f1f78d1fbb913638bf41f8ee79a4c8368b0c0e9d0fint,
        30,
        0,
        0x289072c8c89e8fb70e66651011612ba8d90c65fa75a7c1c717811a07cd060f32int,
        0x1be48f1d77dda4429633468548ff84ba6284ec08721bf1aa433fc5501f32b251int,
    );
    lemma_bit(
        a,
        0x41c8d53178c3349198dfe0f1f78d1fbb913638bf41f8ee79a4c8368b0c0e9d0fint,
        60,
        1,
        0x1be48f1d77dda4429633468548ff84ba6284ec08721bf1aa433fc5501f32b251int,
        0x6727c0ee76d7aa9295747934dc7808259109ad67dd8f72770ba2cb8de06ae24eint,
    );
    lemma_bit(
        a,
        0x41c8d53178c3349198dfe0f1f78d1fbb913638bf41f8ee79a4c8368b0c0e9d0fint,
        121,
        0,
        0x6727c0ee76d7aa9295747934dc7808259109ad67dd8f72770ba2cb8de06ae24eint,
        0x48ca974bdabaa752bfda0a50f6e9f71367573683e1f0c953f52a1915d0b02e3cint,
    );
    lemma_bit(
        a,
        0x41c8d53178c3349198dfe0f1f78d1fbb913638bf41f8ee79a4c8368b0c0e9d0fint,
        242,
        1,
        0x48ca974bdabaa752bfda0a50f6e9f71367573683e1f0c953f52a1915d0b02e3cint,
        0x4e58285e010910c38623879b1221fd5c51fa2c8c96d1bb0aa8ba9660e2652b41int,
    );
    lemma_bit(
        a,
        0x41c8d53178c3349198dfe0f1f78d1fbb913638bf41f8ee79a4c8368b0c0e9d0fint,
        485,
        1,
        0x4e58285e010910c38623879b1221fd5c51fa2c8c96d1bb0aa8ba9660e2652b41int,
        0x4b1c8d48f86e0ddb0985b17a3417a25bf7d43bc391c46ba2a7f9cee1ca5c073cint,
    );
    lemma_bit(
        a,
        0x41c8d53178c3349198dfe0f1f78d1fbb913638bf41f8ee79a4c8368b0c0e9d0fint,
        971,
        1,
        0x4b1c8d48f86e0ddb0985b17a3417a25bf7d43bc391c46ba2a7f9cee1ca5c073cint,
        0x1be1e00c01d19970e452ea9adf1d0ca3fa7bd13b60241d53b1829c3772ec8c9dint,
    );
    lemma_bit(
        a,
        0x41c8d53178c3349198dfe0f1f78d1fbb913638bf41f8ee79a4c8368b0c0e9d0fint,
        1943,
        1,
        0x1be1e00c01d19970e452ea9adf1d0ca3fa7bd13b60241d53b1829c3772ec8c9dint,
        0x1fdd3335504b7de6020685b24b4679b01ab15ebd931bdd8b2ac3d84bf6b8a937int,
    );
    lemma_bit(
        a,
        0x41c8d53178c3349198dfe0f1f78d1fbb913638bf41f8ee79a4c8368b0c0e9d0fint,
        3887,
        0,
        0x1fdd3335504b7de6020685b24b4679b01ab15ebd931bdd8b2ac3d84bf6b8a937int,
        0x2f2b786002ae52082273e3cbdcc2479bc1ca042c20cc137edcf60062bc2ce76aint,
    );
    lemma_bit(
        a,
        0x41c8d53178c3349198dfe0f1f78d1fbb913638bf41f8ee79a4c8368b0c0e9d0fint,
        7774,
        1,
        0x2f2b786002ae52082273e3cbdcc2479bc1ca042c20cc137edcf60062bc2ce76aint,
        0x6b36eb1c889ae449a61a2fee1ce4c0f769794b20cd0defa2c227aa29f1701192int,
    );
    lemma_bit(
        a,
        0x41c8d53178c3349198dfe0f1f78d1fbb913638bf41f8ee79a4c8368b0c0e9d0fint,
        15549,
        0,
        0x6b36eb1c889ae449a61a2fee1ce4c0f769794b20cd0defa2c227aa29f1701192int,
        0x56b18492d274ad702a6a50509f8adb267e8aa6cbf3638658e93e89a947a0dff7int,
    );
    lemma_bit(
        a,
        0x41c8d53178c3349198dfe0f1f78d1fbb913638bf41f8ee79a4c8368b0c0e9d0fint,
        31098,
        1,
        0x56b18492d274ad702a6a50509f8adb267e8aa6cbf3638658e93e89a947a0dff7int,
        0x4b1ab7703016e82c021729cccfd25af442f12483ba77a24f42597b1521fa1122int,
    );
    lemma_bit(
        a,
        0x41c8d53178c3349198dfe0f1f78d1fbb913638bf41f8ee79a4c8368b0c0e9d0fint,
        62197,
        0,
        0x4b1ab7703016e82c021729cccfd25af442f12483ba77a24f42597b1521fa1122int,
        0x3e806c93e09cf40bcfeaf8f34ed424785b9f67042f6a2e296f7e8276674d9797int,
    );
    lemma_bit(
        a,
        0x41c8d53178c3349198dfe0f1f78d1fbb913638bf41f8ee79a4c8368b0c0e9d0fint,
        124394,
        1,
        0x3e806c93e09cf40bcfeaf8f34ed424785b9f67042f6a2e296f7e8276674d9797int,
        0x4f639a776d2199de3cfef8bca32b1e5859e7e9066f2f3c8d142a1f6e1a730fbaint,
    );
    lemma_bit(
        a,
        0x41c8d53178c3349198dfe0f1f78d1fbb913638bf41f8ee79a4c8368b0c0e9d0fint,
        248789,
        0,
        0x4f639a776d2199de3cfef8bca32b1e5859e7e9066f2f3c8d142a1f6e1a730fbaint,
        0x41fdb90a7cd2febcad31a15547a5cde0bc49760d8bbfd93ca1012ba283fc87a6int,
    );
    lemma_bit(
        a,
        0x41c8d53178c3349198dfe0f1f78d1fbb913638bf41f8ee79a4c8368b0c0e9d0fint,
        497578,
        1,
        0x41fdb90a7cd2febcad31a15547a5cde0bc49760d8bbfd93ca1012ba283fc87a6int,
        0x72bb1e5df71499edd62f5ce00da55569af00cda47bed84b79c7746350600564eint,
    );
    lemma_bit(
        a,
        0x41c8d53178c3349198dfe0f1f78d1fbb913638bf41f8ee79a4c8368b0c0e9d0fint,
        995157,
        0,
        0x72bb1e5df71499edd62f5ce00da55569af00cda47bed84b79c7746350600564eint,
        0x15acf81fee706a7e6c54d92b60556505ac32a877e033be4526305474fd2d3c2dint,
    );
    lemma_bit(
        a,
        0x41c8d53178c3349198dfe0f1f78d1fbb913638bf41f8ee79a4c8368b0c0e9d0fint,
        1990314,
        1,
        0x15acf81fee706a7e6c54d92b60556505ac32a877e033be4526305474fd2d3c2dint,
        0x660c3de1b159e46d3edeac5fcb1888afda97d1deb29744f80ca288a79ad70109int,
    );
    lemma_bit(
        a,
        0x41c8d53178c3349198dfe0f1f78d1fbb913638bf41f8ee79a4c8368b0c0e9d0fint,
        3980629,
        1,
        0x660c3de1b159e46d3edeac5fcb1888afda97d1deb29744f80ca288a79ad70109int,
        0x45b0532db0d336dba225b1ad36cdafb3b6af6096851c05dd7775dd3160f8ccbeint,
    );
    lemma_bit(
        a,
        0x41c8d53178c3349198dfe0f1f78d1fbb913638bf41f8ee79a4c8368b0c0e9d0fint,
        7961259,
        0,
        0x45b0532db0d336dba225b1ad36cdafb3b6af6096851c05dd7775dd3160f8ccbeint,
        0x67f27ad66ed112b78ede2873ea46e7b48ae4c324c1b401a198a7a0e038d39187int,
    );
    lemma_bit(
        a,
        0x41c8d53178c3349198dfe0f1f78d1fbb913638bf41f8ee79a4c8368b0c0e9d0fint,
        15922518,
        0,
        0x67f27ad66ed112b78ede2873ea46e7b48ae4c324c1b401a198a7a0e038d39187int,
        0x73cf454d74197898ae0bda2ae3eb9559c105ab9a05e7750bed41ab82456dc280int,
    );
    lemma_bit(
        a,
        0x41c8d53178c3349198dfe0f1f78d1fbb913638bf41f8ee79a4c8368b0c0e9d0fint,
        31845036,
        1,
        0x73cf454d74197898ae0bda2ae3eb9559c105ab9a05e7750bed41ab82456dc280int,
        0x736145c342440693315e0cd49b0262217a4ccac40a8233d80bb6cecd14fe697cint,
    );
    lemma_bit(
        a,
        0x41c8d53178c3349198dfe0f1f78d1fbb913638bf41f8ee79a4c8368b0c0e9d0fint,
        63690073,
        0,
        0x736145c342440693315e0cd49b0262217a4ccac40a8233d80bb6cecd14fe697cint,
        0x110742c168ecc200b9ec28b5870e4b42ae0337c574fcaa026f899c9896bdc317int,
    );
    lemma_bit(
        a,
        0x41c8d53178c3349198dfe0f1f78d1fbb913638bf41f8ee79a4c8368b0c0e9d0fint,
        127380146,
        1,
        0x110742c168ecc200b9ec28b5870e4b42ae0337c574fcaa026f899c9896bdc317int,
        0xac45a4010001a4020000000100000000int,
    );
}

/// The exponent from which the others are reached: six times 906349 times 254760293 times it is
/// the group order less one.
spec fn root_exponent() -> nat {
    0x178da222690080cd7cab2aab13ab2aaa87aaaaaaaaaa80000000nat
}

/// 7 is neither a square nor a cube: the powers with a half and a third of the group order less
/// one as their exponents are not congruent to one. The other two powers serve to prove that the
/// group order is prime.
pub proof fn lemma_powers_at_order()
    ensures
        pow(7, ((order() - 1) / 2) as nat) % order() == order() - 1,
        pow(7, ((order() - 1) / 3) as nat) % order() != 1,
        pow(7, ((order() - 1) / 906349) as nat) % order() == 0x67ee5d1f3b069511cd89744d5897256537cb1d8475a21d7924a57ba2b69a4d76int,
        pow(7, ((order() - 1) / 254760293) as nat) % order() == 0x4a7a5acf5dc0e762414782ae22b4119ca76fee9d4c748ed263a7435fa7fde54fint,
{
    reveal(order);
    lemma_power_52_digits();
    let t = root_exponent();
    let a = pow(7, t);
    lemma_power_906349_of_root(a);
    lemma_power_254760293_of_root(a);
    let b = pow(a, 906349);
    let c = pow(a, 254760293);
    lemma_power_254760293_of_power(b);
    let d = pow(b, 254760293);
    lemma_pow_multiplies(7, t, 906349);
    lemma_pow_multiplies(7, t, 254760293);
    lemma_pow_multiplies(7, t * 906349, 254760293);
    lemma_pow_multiplies(7, t * 906349, 6);
    lemma_pow_multiplies(7, t * 254760293, 6);
    lemma_pow_multiplies(7, t * 906349 * 254760293, 2);
    lemma_pow_multiplies(7, t * 906349 * 254760293, 3);
    lemma_pow1(b);
    lemma_pow1(c);
    lemma_pow1(d);
    lemma_bit(
        b,
        0x41c8d53178c3349198dfe0f1f78d1fbb913638bf41f8ee79a4c8368b0c0e9d0fint,
        1,
        1,
        0x41c8d53178c3349198dfe0f1f78d1fbb913638bf41f8ee79a4c8368b0c0e9d0fint,
        0x528429a99038cdf678c3785e999cdd9dcd0f0135907f3896fd8b3c36e93f6caint,
    );
    lemma_bit(
        b,
        0x41c8d53178c3349198dfe0f1f78d1fbb913638bf41f8ee79a4c8368b0c0e9d0fint,
        3,
        0,
        0x528429a99038cdf678c3785e999cdd9dcd0f0135907f3896fd8b3c36e93f6caint,
        0x4a7a5acf5dc0e762414782ae22b4119ca76fee9d4c748ed263a7435fa7fde54fint,
    );
    lemma_bit(
        c,
        0x5eba67e242df3b21fe629993ce02567506b4acc3469205cc316b609b537405fint,
        1,
        1,
        0x5eba67e242df3b21fe629993ce02567506b4acc3469205cc316b609b537405fint,
        0x3f9686d1551dd05c69a9fb8146ab07a8f48a87e3f25d8a3c15e3a8f2b97905deint,
    );
    lemma_bit(
        c,
        0x5eba67e242df3b21fe629993ce02567506b4acc3469205cc316b609b537405fint,
        3,
        0,
        0x3f9686d1551dd05c69a9fb8146ab07a8f48a87e3f25d8a3c15e3a8f2b97905deint,
        0x67ee5d1f3b069511cd89744d5897256537cb1d8475a21d7924a57ba2b69a4d76int,
    );
    lemma_bit(
        d,
        0xac45a4010001a4020000000100000000int,
        1,
        0,
        0xac45a4010001a4020000000100000000int,
        0xac45a4010001a40200000000ffffffffint,
    );
    lemma_bit(
        d,
        0xac45a4010001a4020000000100000000int,
        1,
        1,
        0xac45a4010001a4020000000100000000int,
        0x73eda753299d7d483339d80809a1d80553bda402fffe5bfeffffffff00000000int,
    );
}

} // verus!
